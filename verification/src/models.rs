//! The record model: the `Todo` entity, the client-supplied `PartialTodo`
//! creation payload, the `ListOptions` query parameters, and the error
//! taxonomy. Identifiers are carried in their canonical text form: 36
//! characters, lowercase hexadecimal in five hyphen-separated groups.

use vstd::prelude::*;
use vstd::string::*;

verus! {

/// A persisted todo record.
#[derive(Clone, Debug)]
pub struct Todo {
    pub id: String,
    pub text: String,
    pub completed: bool,
}

/// The client-supplied creation payload: a todo without an identifier.
#[derive(Clone, Debug)]
pub struct PartialTodo {
    pub text: String,
    pub completed: bool,
}

/// Query parameters for the list operation: skip `offset` records, then
/// return at most `limit` records. A missing value means "from the start"
/// and "unbounded" respectively.
#[derive(Clone, Copy, Debug)]
pub struct ListOptions {
    pub offset: Option<usize>,
    pub limit: Option<usize>,
}

/// The error taxonomy of the service.
///
/// `Validation` is a malformed request body, rejected before any store
/// access. `CorruptRecord` is a stored record that no longer decodes as a
/// todo. `Backend` is a failed call to the key-value backend; it arises only
/// at the process edge, never from the verified model.
#[derive(Clone, Copy, Debug)]
pub enum ApiError {
    Validation,
    CorruptRecord,
    Backend,
}

/// True for the lowercase hexadecimal digits, the only digits the canonical
/// identifier form uses.
pub open spec fn is_hex_lower(c: char) -> bool {
    ('0' <= c && c <= '9') || ('a' <= c && c <= 'f')
}

/// True of a canonical identifier: 36 characters, hyphens at the four fixed
/// group boundaries, lowercase hexadecimal digits everywhere else.
pub open spec fn is_uuid(s: Seq<char>) -> bool {
    &&& s.len() == 36
    &&& forall|i: int|
        0 <= i < 36 ==> (if i == 8 || i == 13 || i == 18 || i == 23 {
            s[i] == '-'
        } else {
            is_hex_lower(#[trigger] s[i])
        })
}

/// Checks that a string is a canonical identifier.
pub fn is_uuid_string(s: &str) -> (r: bool)
    ensures
        r == is_uuid(s@),
{
    let n = s.unicode_len();
    if n != 36 {
        return false;
    }
    let mut i: usize = 0;
    while i < 36
        invariant
            s@.len() == 36,
            0 <= i <= 36,
            forall|j: int|
                0 <= j < i ==> (if j == 8 || j == 13 || j == 18 || j == 23 {
                    s@[j] == '-'
                } else {
                    is_hex_lower(#[trigger] s@[j])
                }),
        decreases 36 - i,
    {
        let c = s.get_char(i);
        if i == 8 || i == 13 || i == 18 || i == 23 {
            if c != '-' {
                return false;
            }
        } else {
            if !(('0' <= c && c <= '9') || ('a' <= c && c <= 'f')) {
                return false;
            }
        }
        i = i + 1;
    }
    true
}

/// The store key a todo with the given identifier is persisted under.
pub open spec fn key_of(id: Seq<char>) -> Seq<char> {
    "todos:"@ + id
}

/// Derives the store key for an identifier: the reserved prefix followed by
/// the identifier itself.
pub fn todo_key(id: &str) -> (r: String)
    ensures
        r@ == key_of(id@),
{
    let mut k = String::new();
    k.append("todos:");
    k.append(id);
    k
}

/// A well-formed todo: its identifier is in canonical form.
pub open spec fn todo_wf(t: Todo) -> bool {
    is_uuid(t.id@)
}

/// Builds the full record persisted for a creation request: the freshly
/// generated identifier together with the client-supplied fields.
pub fn make_todo(partial: PartialTodo, id: String) -> (r: Todo)
    ensures
        r.id == id,
        r.text == partial.text,
        r.completed == partial.completed,
{
    Todo { id, text: partial.text, completed: partial.completed }
}

/// Relies on `uuid::Uuid::new_v4` for a fresh random 128-bit identifier and
/// on `uuid::Uuid::to_string`, whose output is the hyphenated form: five
/// groups of lowercase hexadecimal digits separated by hyphens.
#[verifier::external_body]
pub(crate) fn fresh_id() -> (r: String)
    ensures
        is_uuid(r@),
{
    uuid::Uuid::new_v4().to_string()
}

} // verus!
