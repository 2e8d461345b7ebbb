//! The per-operation request policy: list, create, update and delete, each
//! composing store operations and yielding the data (or status) behind the
//! HTTP response.
//!
//! Two policies the wider design leaves open are fixed here deliberately:
//! a stored record that no longer decodes aborts the whole list call with
//! `CorruptRecord` (surfaced as an internal error, like any backend
//! failure), and a successful update reports its status with no body.

use vstd::prelude::*;
use crate::models::{ApiError, ListOptions, PartialTodo, Todo, is_uuid, fresh_id};
use crate::codec::{decode_todo, encode_todo, spec_decode_todo, spec_encode_todo};
use crate::store::Store;

verus! {

pub const STATUS_OK: u16 = 200;

pub const STATUS_CREATED: u16 = 201;

pub const STATUS_NO_CONTENT: u16 = 204;

pub const STATUS_BAD_REQUEST: u16 = 400;

pub const STATUS_NOT_FOUND: u16 = 404;

pub const STATUS_INTERNAL_ERROR: u16 = 500;

/// The status code an error is surfaced with: a rejected body is the
/// client's fault; everything else is an internal fault.
pub fn status_of_error(e: &ApiError) -> (r: u16)
    ensures
        r == (match e {
            ApiError::Validation => STATUS_BAD_REQUEST,
            ApiError::CorruptRecord => STATUS_INTERNAL_ERROR,
            ApiError::Backend => STATUS_INTERNAL_ERROR,
        }),
{
    match e {
        ApiError::Validation => STATUS_BAD_REQUEST,
        ApiError::CorruptRecord => STATUS_INTERNAL_ERROR,
        ApiError::Backend => STATUS_INTERNAL_ERROR,
    }
}

/// The first scan position the list returns: the requested offset, clamped
/// to the number of stored records.
pub open spec fn list_lo(len: int, opts: ListOptions) -> int {
    let o = match opts.offset {
        Some(o) => o as int,
        None => 0,
    };
    if o > len {
        len
    } else {
        o
    }
}

/// One past the last scan position the list returns: at most `limit`
/// records past the first, unbounded when no limit is given.
pub open spec fn list_hi(len: int, opts: ListOptions) -> int {
    match opts.limit {
        Some(l) => if list_lo(len, opts) + l > len {
            len
        } else {
            list_lo(len, opts) + l
        },
        None => len,
    }
}

/// List: the decoded records of the scan slice selected by `offset` and
/// `limit`. An empty store (or an offset past the end) yields an empty
/// list, never an error; a record in the slice that fails to decode aborts
/// the call with `CorruptRecord` and no other error occurs.
pub fn list_todos(store: &Store, opts: &ListOptions) -> (r: Result<Vec<Todo>, ApiError>)
    requires
        store.wf(),
    ensures
        match r {
            Ok(v) => {
                let lo = list_lo(store.ids().len() as int, *opts);
                let hi = list_hi(store.ids().len() as int, *opts);
                &&& v@.len() == hi - lo
                &&& forall|k: int|
                    0 <= k < hi - lo ==> spec_decode_todo(
                        store.record_of(store.ids()[lo + k]),
                    ) == Some(
                        (
                            (#[trigger] v@[k]).id@,
                            v@[k].text@,
                            v@[k].completed,
                        ),
                    )
            },
            Err(e) => {
                let lo = list_lo(store.ids().len() as int, *opts);
                let hi = list_hi(store.ids().len() as int, *opts);
                &&& e is CorruptRecord
                &&& exists|k: int|
                    lo <= k < hi && spec_decode_todo(#[trigger] store.record_of(store.ids()[k]))
                        == None::<(Seq<char>, Seq<char>, bool)>
            },
        },
        store.ids().len() == 0 ==> r is Ok,
        (match opts.offset {
            Some(o) => store.ids().len() <= o,
            None => false,
        }) ==> r is Ok,
        match r {
            Ok(v) => match opts.limit {
                Some(l) => v@.len() <= l,
                None => true,
            },
            Err(_) => true,
        },
{
    let n = store.len();
    let o = match opts.offset {
        Some(o) => o,
        None => 0,
    };
    let lo = if o > n {
        n
    } else {
        o
    };
    let hi = match opts.limit {
        Some(l) => if l > n - lo {
            n
        } else {
            lo + l
        },
        None => n,
    };
    let mut out: Vec<Todo> = Vec::new();
    let mut k = lo;
    while k < hi
        invariant
            store.wf(),
            n == store.ids().len(),
            lo == list_lo(n as int, *opts),
            hi == list_hi(n as int, *opts),
            lo <= k <= hi <= n,
            out@.len() == k - lo,
            forall|j: int|
                0 <= j < k - lo ==> spec_decode_todo(store.record_of(store.ids()[lo + j])) == Some(
                    ((#[trigger] out@[j]).id@, out@[j].text@, out@[j].completed),
                ),
        decreases hi - k,
    {
        let (_id_at, rec) = store.entry_at(k);
        match decode_todo(rec.as_str()) {
            Some(t) => {
                out.push(t);
            },
            None => {
                return Err(ApiError::CorruptRecord);
            },
        }
        k = k + 1;
    }
    Ok(out)
}

/// The skip-then-take slice of a scanned key list, as the list operation
/// applies it before fetching: slicing happens on the key list, so only the
/// needed records are ever fetched.
pub fn slice_keys(keys: Vec<String>, opts: &ListOptions) -> (r: Vec<String>)
    ensures
        r@ == keys@.subrange(
            list_lo(keys@.len() as int, *opts),
            list_hi(keys@.len() as int, *opts),
        ),
{
    let ghost orig = keys@;
    let n = keys.len();
    let o = match opts.offset {
        Some(o) => o,
        None => 0,
    };
    let lo = if o > n {
        n
    } else {
        o
    };
    let mut keys = keys;
    let mut tail = keys.split_off(lo);
    match opts.limit {
        Some(l) => {
            if l < tail.len() {
                tail.truncate(l);
            }
        },
        None => {},
    }
    proof {
        assert(tail@ =~= orig.subrange(
            list_lo(orig.len() as int, *opts),
            list_hi(orig.len() as int, *opts),
        ));
    }
    tail
}

/// Create, with the freshly generated identifier handed in: builds the full
/// record and upserts it. Identifiers are generated fresh and never checked
/// against the store first; on an identifier already present this writes
/// over it, as the store's upsert does.
pub fn create_todo_with_id(store: &mut Store, partial: PartialTodo, id: String) -> (r: Todo)
    requires
        old(store).wf(),
        is_uuid(id@),
    ensures
        final(store).wf(),
        r.id@ == id@ && r.text == partial.text && r.completed == partial.completed,
        is_uuid(r.id@),
        final(store).contains_id(id@),
        final(store).record_of(id@) == spec_encode_todo(id@, partial.text@, partial.completed),
        !old(store).contains_id(id@) ==> final(store).ids() == old(store).ids().push(id@),
        old(store).contains_id(id@) ==> final(store).ids() == old(store).ids(),
        forall|other: Seq<char>|
            other != id@ ==> #[trigger] final(store).contains_id(other) == old(store).contains_id(
                other,
            ),
        forall|other: Seq<char>|
            other != id@ && old(store).contains_id(other) ==> #[trigger] final(store).record_of(
                other,
            ) == old(store).record_of(other),
{
    let todo = Todo { id: id.clone(), text: partial.text, completed: partial.completed };
    let record = encode_todo(&todo);
    store.set(id, record);
    todo
}

/// Create: generates a fresh random identifier, builds the full record and
/// persists it. The response body is the created todo, identifier included.
pub fn create_todo(store: &mut Store, partial: PartialTodo) -> (r: Todo)
    requires
        old(store).wf(),
    ensures
        final(store).wf(),
        r.text == partial.text && r.completed == partial.completed,
        is_uuid(r.id@),
        final(store).contains_id(r.id@),
        final(store).record_of(r.id@) == spec_encode_todo(r.id@, partial.text@, partial.completed),
        !old(store).contains_id(r.id@) ==> final(store).ids() == old(store).ids().push(r.id@),
        old(store).contains_id(r.id@) ==> final(store).ids() == old(store).ids(),
        forall|other: Seq<char>|
            other != r.id@ ==> #[trigger] final(store).contains_id(other) == old(store).contains_id(
                other,
            ),
        forall|other: Seq<char>|
            other != r.id@ && old(store).contains_id(other) ==> #[trigger] final(store).record_of(
                other,
            ) == old(store).record_of(other),
{
    let id = fresh_id();
    create_todo_with_id(store, partial, id)
}

/// Update: the existence check gates the write. An absent identifier
/// leaves the store exactly as it was and reports not-found; a present one
/// has its record overwritten in place, every other record untouched, and
/// reports plain success.
pub fn update_todo(store: &mut Store, todo: &Todo) -> (status: u16)
    requires
        old(store).wf(),
        is_uuid(todo.id@),
    ensures
        final(store).wf(),
        !old(store).contains_id(todo.id@) ==> status == STATUS_NOT_FOUND && *final(store) == *old(store),
        old(store).contains_id(todo.id@) ==> {
            &&& status == STATUS_OK
            &&& final(store).contains_id(todo.id@)
            &&& final(store).record_of(todo.id@) == spec_encode_todo(
                todo.id@,
                todo.text@,
                todo.completed,
            )
            &&& final(store).ids() == old(store).ids()
            &&& forall|other: Seq<char>|
                other != todo.id@ ==> #[trigger] final(store).contains_id(other) == old(store).contains_id(other)
            &&& forall|other: Seq<char>|
                other != todo.id@ && old(store).contains_id(other) ==> #[trigger] final(store).record_of(other) == old(store).record_of(other)
        },
{
    if store.exists_id(&todo.id) {
        let record = encode_todo(todo);
        store.set(todo.id.clone(), record);
        STATUS_OK
    } else {
        STATUS_NOT_FOUND
    }
}

/// After a creation under an identifier not yet present, the new record
/// stands at the end of the scan order and decodes back to exactly the
/// created fields: a subsequent list returns the created todo unchanged.
pub proof fn lemma_create_then_list(pre: Store, post: Store, t: Todo)
    requires
        pre.wf(),
        post.wf(),
        is_uuid(t.id@),
        !pre.contains_id(t.id@),
        post.contains_id(t.id@),
        post.record_of(t.id@) == spec_encode_todo(t.id@, t.text@, t.completed),
        post.ids() == pre.ids().push(t.id@),
    ensures
        post.ids().len() == pre.ids().len() + 1,
        post.ids()[post.ids().len() - 1] == t.id@,
        spec_decode_todo(post.record_of(t.id@)) == Some((t.id@, t.text@, t.completed)),
{
    crate::codec::lemma_encode_decode(t.id@, t.text@, t.completed);
}

/// Delete: the existence check gates the removal. An absent identifier is
/// reported not-found with no store mutation at all; a present one is
/// removed, every other record untouched, and reported as no-content.
pub fn delete_todo(store: &mut Store, id: &String) -> (status: u16)
    requires
        old(store).wf(),
    ensures
        final(store).wf(),
        !final(store).contains_id(id@),
        !old(store).contains_id(id@) ==> status == STATUS_NOT_FOUND && *final(store) == *old(store),
        old(store).contains_id(id@) ==> {
            &&& status == STATUS_NO_CONTENT
            &&& final(store).ids().len() == old(store).ids().len() - 1
            &&& forall|other: Seq<char>|
                other != id@ ==> #[trigger] final(store).contains_id(other) == old(store).contains_id(other)
            &&& forall|other: Seq<char>|
                other != id@ && old(store).contains_id(other) ==> #[trigger] final(store).record_of(other) == old(store).record_of(other)
        },
{
    if store.exists_id(id) {
        let _removed = store.delete(id);
        proof {
            let k = choose|k: int|
                0 <= k < old(store).entries@.len() && old(store).ids()[k] == id@
                    && store.entries@ == old(store).entries@.remove(k);
            assert(store.ids().len() == old(store).ids().len() - 1);
        }
        STATUS_NO_CONTENT
    } else {
        proof {
            assert(!store.contains_id(id@));
        }
        STATUS_NOT_FOUND
    }
}

} // verus!
