use vstd::prelude::*;
use vstd::string::StringExecFns;
use crate::text::{join_path, join_spec, stems, stems_with_suffix};

verus! {

/// The extension of a document's file.
pub open spec fn document_ext() -> Seq<char> {
    seq!['.', 'j', 's', 'o', 'n']
}

/// Where each document's blob lives: `<base>/<id>.json`, one file per id.
pub struct Storage {
    base_path: String,
}

impl Storage {
    pub closed spec fn base(&self) -> Seq<char> {
        self.base_path@
    }

    /// A store rooted at the directory `path`.
    pub fn new(path: &str) -> (r: Storage)
        ensures
            r.base() == path@,
    {
        Storage { base_path: path.to_owned() }
    }

    pub fn base_path(&self) -> (r: &str)
        ensures
            r@ == self.base(),
    {
        self.base_path.as_str()
    }

    /// The file that holds the blob of the document `id`.
    pub fn get_file_path(&self, id: &str) -> (r: String)
        ensures
            r@ == join_spec(self.base(), id@ + document_ext()),
    {
        let name = id.to_owned().concat(".json");
        proof {
            reveal_strlit(".json");
            assert(name@ =~= id@ + document_ext());
        }
        join_path(self.base_path.as_str(), name.as_str())
    }

    /// The ids of the stored documents, given the names of the files in the
    /// store's directory: the stems of those ending in `.json`, in their order.
    pub fn list(&self, file_names: &Vec<String>) -> (r: Vec<String>)
        ensures
            r@.map_values(|s: String| s@) == stems(file_names@.map_values(|s: String| s@), document_ext()),
    {
        proof {
            reveal_strlit(".json");
            assert(".json"@ =~= document_ext());
        }
        stems_with_suffix(file_names, ".json")
    }
}

} // verus!
