//! Where a table's files live under the storage root.
use vstd::prelude::*;

use crate::text::{join2, join3, nat_text, usize_to_text};

verus! {

/// Paths of the files of each table under a storage root.
pub struct FilePaths {
    pub base_path: String,
}

impl FilePaths {
    /// The layout under the storage root `base_path`.
    pub fn new(base_path: String) -> (r: Self)
        ensures
            r.base_path == base_path,
    {
        FilePaths { base_path }
    }

    /// `<root>/<table_name>`: the directory of a table.
    pub fn table_path(&self, table_name: &str) -> (r: String)
        ensures
            r@ == self.base_path@ + "/"@ + table_name@,
    {
        join3(self.base_path.as_str(), "/", table_name)
    }

    /// `<root>/<table_name>/metadata.bin`: the metadata file of a table.
    pub fn meta_data_path(&self, table_name: &str) -> (r: String)
        ensures
            r@ == self.base_path@ + "/"@ + table_name@ + "/metadata.bin"@,
    {
        let dir = self.table_path(table_name);
        join2(dir.as_str(), "/metadata.bin")
    }

    /// `<root>/<table_name>/data_page_<N>.bin`: data page `N` of a table.
    pub fn data_page(&self, table_name: &str, data_page_index: usize) -> (r: String)
        ensures
            r@ == self.base_path@ + "/"@ + table_name@ + "/data_page_"@ + nat_text(
                data_page_index as nat,
            ) + ".bin"@,
    {
        let dir = self.table_path(table_name);
        let n = usize_to_text(data_page_index);
        let a = join3(dir.as_str(), "/data_page_", n.as_str());
        join2(a.as_str(), ".bin")
    }

    /// `<root>/<table_name>/<index_name>`: the marker file of an index.
    pub fn index_path(&self, table_name: &str, index_name: &str) -> (r: String)
        ensures
            r@ == self.base_path@ + "/"@ + table_name@ + "/"@ + index_name@,
    {
        let dir = self.table_path(table_name);
        join3(dir.as_str(), "/", index_name)
    }
}

} // verus!
