//! The field-name resolver.
//!
//! Given the header record — the first row of the stream — and an ordered
//! list of requested field names, the resolver maps each name to its column
//! position in the header and materializes the projected header row (the
//! names in request order). When a header holds the same name twice, the
//! last occurrence wins; that choice is deterministic and deliberate. A name
//! the header does not hold is a fatal error, found before any data row is
//! touched.

use vstd::prelude::*;

use crate::bytes::bytes_eq;
use crate::bytes::copy_bytes;
use crate::errors::ResolutionError;
use crate::selector::Record;

verus! {

/// The 0-based position of the last occurrence of `name` in the header, or
/// `-1` when the header does not hold it.
pub open spec fn name_index(header: Seq<Seq<u8>>, name: Seq<u8>) -> int
    decreases header.len(),
{
    if header.len() == 0 {
        -1
    } else if header.last() == name {
        header.len() - 1
    } else {
        name_index(header.drop_last(), name)
    }
}

/// Finds the last occurrence of a field name in the header record.
pub fn find_field(header: &Record, name: &Vec<u8>) -> (r: Option<usize>)
    ensures
        match r {
            Some(i) => i < header@.len() && name_index(header.deep_view(), name@) == i,
            None => name_index(header.deep_view(), name@) == -1,
        },
{
    let ghost hd = header.deep_view();
    let mut i: usize = header.len();
    proof {
        assert(hd.take(hd.len() as int) =~= hd);
    }
    while i > 0
        invariant
            i <= header@.len(),
            hd == header.deep_view(),
            hd.len() == header@.len(),
            name_index(hd, name@) == name_index(hd.take(i as int), name@),
        decreases i,
    {
        proof {
            assert(hd.take(i as int).drop_last() =~= hd.take(i - 1));
            assert(hd.take(i as int).last() == hd[i - 1]);
            assert(header@[i - 1]@ == hd[i - 1]);
        }
        if bytes_eq(&header[i - 1], name) {
            return Some(i - 1);
        }
        i = i - 1;
    }
    proof {
        assert(hd.take(0) =~= Seq::<Seq<u8>>::empty());
    }
    None
}

/// What name resolution produces: the ordered list of 1-based column
/// indices, one per requested name, and the projected header row to write
/// first — the requested names in request order.
#[derive(Debug, PartialEq, Eq)]
pub struct ResolvedFields {
    pub columns: Vec<usize>,
    pub header_out: Record,
}

/// Resolves the requested field names against the header record. Succeeds
/// exactly when the header holds every name; each name resolves to the
/// 1-based column of its last occurrence, in request order. The first name
/// the header does not hold is the error, and nothing is resolved.
pub fn resolve_fields(header: &Record, fields: &Vec<Vec<u8>>) -> (r: Result<
    ResolvedFields,
    ResolutionError,
>)
    ensures
        match r {
            Ok(res) => {
                &&& forall|j: int|
                    0 <= j < fields@.len() ==> name_index(
                        header.deep_view(),
                        #[trigger] fields@[j]@,
                    ) >= 0
                &&& res.columns@.len() == fields@.len()
                &&& forall|j: int|
                    0 <= j < fields@.len() ==> #[trigger] res.columns@[j] == name_index(
                        header.deep_view(),
                        fields@[j]@,
                    ) + 1
                &&& forall|j: int| 0 <= j < res.columns@.len() ==> #[trigger] res.columns@[j] >= 1
                &&& res.header_out.deep_view() == fields.deep_view()
            },
            Err(e) => exists|j: int|
                {
                    &&& 0 <= j < fields@.len()
                    &&& name_index(header.deep_view(), #[trigger] fields@[j]@) == -1
                    &&& e->UnknownField_0@ == fields@[j]@
                    &&& forall|k: int|
                        0 <= k < j ==> name_index(header.deep_view(), #[trigger] fields@[k]@) >= 0
                },
        },
{
    let ghost hd = header.deep_view();
    let mut columns: Vec<usize> = Vec::new();
    let mut header_out: Record = Vec::new();
    let mut j: usize = 0;
    while j < fields.len()
        invariant
            j <= fields@.len(),
            hd == header.deep_view(),
            hd.len() == header@.len(),
            columns@.len() == j,
            header_out@.len() == j,
            forall|k: int|
                0 <= k < j ==> name_index(hd, #[trigger] fields@[k]@) >= 0,
            forall|k: int|
                0 <= k < j ==> #[trigger] columns@[k] == name_index(hd, fields@[k]@) + 1,
            forall|k: int| 0 <= k < j ==> #[trigger] header_out@[k]@ == fields@[k]@,
        decreases fields@.len() - j,
    {
        let field = &fields[j];
        match find_field(header, field) {
            Some(i) => {
                let hlen = header.len();
                proof {
                    assert(i < hlen);
                }
                columns.push(i + 1);
                header_out.push(copy_bytes(field));
            },
            None => {
                return Err(ResolutionError::UnknownField(copy_bytes(field)));
            },
        }
        j = j + 1;
    }
    proof {
        assert(header_out.deep_view() =~~= fields.deep_view());
    }
    Ok(ResolvedFields { columns, header_out })
}

} // verus!
