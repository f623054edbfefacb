use vstd::prelude::*;
use vstd::utf8::{decode_utf8, valid_utf8};

use std::string::FromUtf8Error;

verus! {

#[verifier::external_type_specification]
#[verifier::external_body]
pub struct ExFromUtf8Error(FromUtf8Error);

/// Calls `String::from_utf8`. Trusted, as its documentation states: the
/// bytes are accepted exactly when they are valid UTF-8, and the string then
/// holds the characters that they encode.
#[verifier::external_body]
fn string_from_utf8(bytes: Vec<u8>) -> (r: Result<String, FromUtf8Error>)
    ensures
        r is Ok <==> valid_utf8(bytes@),
        r matches Ok(s) ==> s@ == decode_utf8(bytes@),
{
    String::from_utf8(bytes)
}

/// A file embedded in the program: its path inside the resource folder and
/// its bytes.
pub struct EmbeddedFile {
    pub name: String,
    pub data: Vec<u8>,
}

/// The resource folder embedded in the program.
pub struct Resource {
    pub files: Vec<EmbeddedFile>,
}

/// The index of the first file from `i` on named `name`, or the count.
pub open spec fn file_index(files: Seq<EmbeddedFile>, name: Seq<char>, i: int) -> int
    decreases files.len() - i,
{
    if i < 0 || i >= files.len() {
        files.len() as int
    } else if files[i].name@ == name {
        i
    } else {
        file_index(files, name, i + 1)
    }
}

proof fn lemma_file_index(files: Seq<EmbeddedFile>, name: Seq<char>, i: int)
    requires
        0 <= i <= files.len(),
    ensures
        i <= file_index(files, name, i) <= files.len(),
        file_index(files, name, i) < files.len() ==> files[file_index(files, name, i)].name@
            == name,
        file_index(files, name, i) == files.len() ==> forall|k: int|
            i <= k < files.len() ==> files[k].name@ != name,
    decreases files.len() - i,
{
    if i < files.len() && files[i].name@ != name {
        lemma_file_index(files, name, i + 1);
    }
}

/// Reading a file reads all the bytes of the first embedded file that has
/// this path: the file at index `k`, where no earlier file has the path.
pub proof fn lemma_file_data_is_the_whole_first_file(r: &Resource, name: Seq<char>)
    requires
        r.has_file(name),
    ensures
        exists|k: int|
            0 <= k < r.files@.len() && r.files@[k].name@ == name && (forall|j: int|
                0 <= j < k ==> r.files@[j].name@ != name) && r.file_data(name)
                == #[trigger] r.files@[k].data@,
{
    lemma_file_index(r.files@, name, 0);
    let k = file_index(r.files@, name, 0);
    if k == r.files@.len() {
        let w = choose|w: int| 0 <= w < r.files@.len() && #[trigger] r.files@[w].name@ == name;
        assert(r.files@[w].name@ == name);
    }
    lemma_first_file(r.files@, name, 0);
    assert(r.file_data(name) == r.files@[k].data@);
}

proof fn lemma_first_file(files: Seq<EmbeddedFile>, name: Seq<char>, i: int)
    requires
        0 <= i <= files.len(),
    ensures
        forall|j: int| i <= j < file_index(files, name, i) ==> files[j].name@ != name,
    decreases files.len() - i,
{
    if i < files.len() && files[i].name@ != name {
        lemma_first_file(files, name, i + 1);
    }
}

impl Resource {
    /// Some embedded file has this path.
    pub open spec fn has_file(&self, name: Seq<char>) -> bool {
        exists|k: int| 0 <= k < self.files@.len() && #[trigger] self.files@[k].name@ == name
    }

    /// The bytes of the (first) embedded file with this path.
    pub open spec fn file_data(&self, name: Seq<char>) -> Seq<u8> {
        self.files@[file_index(self.files@, name, 0)].data@
    }

    /// The text of an embedded file, or the UTF-8 error when its bytes are
    /// not valid UTF-8.
    pub fn from_file(&self, filename: &str) -> (r: Result<String, FromUtf8Error>)
        requires
            self.has_file(filename@),
        ensures
            r is Ok <==> valid_utf8(self.file_data(filename@)),
            r matches Ok(s) ==> s@ == decode_utf8(self.file_data(filename@)),
    {
        let wanted = String::from_str(filename);
        let n = self.files.len();
        let mut k: usize = 0;
        proof {
            lemma_file_index(self.files@, filename@, 0);
        }
        while k < n && self.files[k].name != wanted
            invariant
                n == self.files@.len(),
                k <= n,
                wanted@ == filename@,
                file_index(self.files@, filename@, 0) == file_index(self.files@, filename@, k as int),
            decreases n - k,
        {
            k = k + 1;
        }
        proof {
            if k == n {
                lemma_file_index(self.files@, filename@, n as int);
                lemma_file_index(self.files@, filename@, 0);
            }
        }
        let bytes = vstd::slice::slice_to_vec(self.files[k].data.as_slice());
        string_from_utf8(bytes)
    }
}

} // verus!
