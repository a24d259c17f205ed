//! The attributes of a start tag as the tokenizer reports them, the size of
//! the array that holds them with the element's default attributes, and the
//! rule that no attribute may occur twice in a tag.
use vstd::prelude::*;
use crate::errors::XmlError;
use crate::hashtable::keyeq;

verus! {

/// The number of attribute slots beyond those needed when the array grows.
pub const INIT_ATTS_SIZE: i32 = 16;

/// The largest `int` of the C interface.
pub const ATTS_INT_MAX: i32 = 0x7fff_ffff;

/// An attribute of a start tag: where its name starts and where its value
/// starts and ends in the input, and whether the value needs no
/// normalisation.
#[allow(non_camel_case_types, non_snake_case)]
pub struct ATTRIBUTE {
    pub name: usize,
    pub valuePtr: usize,
    pub valueEnd: usize,
    pub normalized: u8,
}

/// The size of the attribute array for a tag with `n` attributes and
/// `nDefaultAtts` default attributes, when it has `attsSize` slots: the same
/// when they fit, else all of them and `INIT_ATTS_SIZE` more; an error when
/// the count passes the largest `int`.
pub open spec fn atts_size_for(n: int, nDefaultAtts: int, attsSize: int) -> Option<int> {
    if n + nDefaultAtts > ATTS_INT_MAX {
        None
    } else if n + nDefaultAtts <= attsSize {
        Some(attsSize)
    } else if n + nDefaultAtts + INIT_ATTS_SIZE > ATTS_INT_MAX {
        None
    } else {
        Some(n + nDefaultAtts + INIT_ATTS_SIZE)
    }
}

/// The size of the attribute array as `atts_size_for` says it;
/// `XML_ERROR_NO_MEMORY` when there is none.
#[allow(non_snake_case)]
pub fn attsSizeFor(n: i32, nDefaultAtts: i32, attsSize: i32) -> (r: Result<i32, XmlError>)
    requires
        0 <= n,
        0 <= nDefaultAtts,
        0 <= attsSize,
    ensures
        match atts_size_for(n as int, nDefaultAtts as int, attsSize as int) {
            Some(s) => r == Ok::<i32, XmlError>(s as i32),
            None => r == Err::<i32, XmlError>(XmlError::XML_ERROR_NO_MEMORY),
        },
{
    if n > ATTS_INT_MAX - nDefaultAtts {
        return Err(XmlError::XML_ERROR_NO_MEMORY);
    }
    if n + nDefaultAtts > attsSize {
        if nDefaultAtts > ATTS_INT_MAX - INIT_ATTS_SIZE || n > ATTS_INT_MAX - (nDefaultAtts + INIT_ATTS_SIZE) {
            return Err(XmlError::XML_ERROR_NO_MEMORY);
        }
        return Ok(n + nDefaultAtts + INIT_ATTS_SIZE);
    }
    Ok(attsSize)
}

/// The names, as byte strings.
pub open spec fn name_views(names: Seq<Vec<u8>>) -> Seq<Seq<u8>> {
    names.map_values(|v: Vec<u8>| v@)
}

/// Whether attribute `i` repeats the name of an attribute before it.
pub open spec fn repeats_earlier(names: Seq<Seq<u8>>, i: int) -> bool {
    exists|j: int| 0 <= j < i && #[trigger] names[j] == names[i]
}

/// The index of the first attribute whose name was used by an attribute
/// before it (the one reported as `XML_ERROR_DUPLICATE_ATTRIBUTE`); none
/// when all names differ.
#[allow(non_snake_case)]
pub fn firstDuplicateAttribute(names: &Vec<Vec<u8>>) -> (r: Option<usize>)
    ensures
        match r {
            Some(i) => i < names.len() && repeats_earlier(name_views(names@), i as int)
                && forall|k: int| 0 <= k < i ==> !#[trigger] repeats_earlier(name_views(names@), k),
            None => forall|k: int| 0 <= k < names.len() ==> !#[trigger] repeats_earlier(name_views(names@), k),
        },
{
    let ghost views = name_views(names@);
    let mut i: usize = 0;
    while i < names.len()
        invariant
            i <= names.len(),
            views == name_views(names@),
            forall|k: int| 0 <= k < i ==> !#[trigger] repeats_earlier(views, k),
        decreases names.len() - i,
    {
        let mut j: usize = 0;
        while j < i
            invariant
                j <= i < names.len(),
                views == name_views(names@),
                forall|k: int| 0 <= k < j ==> views[k] != views[i as int],
                forall|k: int| 0 <= k < i ==> !#[trigger] repeats_earlier(views, k),
            decreases i - j,
        {
            if keyeq(names[j].as_slice(), names[i].as_slice()) {
                assert(views[j as int] == views[i as int]);
                return Some(i);
            }
            j = j + 1;
        }
        i = i + 1;
    }
    None
}

} // verus!
