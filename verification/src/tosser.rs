//! Classifying inbound files: plain packets and day-named bundles.

use vstd::prelude::*;

verus! {

use vstd::string::StrSliceExecFns;
use crate::util::{rfind_from, rfind_char};

/// What an inbound file holds.
#[derive(Clone, Copy, Debug, PartialEq, Eq, Structural)]
pub enum InboundType {
    Package,
    Bundle,
}

/// The last slash-separated component of a path.
pub open spec fn file_name_spec(p: Seq<char>) -> Seq<char> {
    match rfind_from(p, p.len() - 1, '/') {
        Some(k) => p.subrange(k + 1, p.len() as int),
        None => p,
    }
}

/// What follows the last dot of the file name, empty when the name has no
/// dot or starts with its only dot.
pub open spec fn ext_spec(p: Seq<char>) -> Seq<char> {
    let base = file_name_spec(p);
    match rfind_from(base, base.len() - 1, '.') {
        Some(d) => if d > 0 {
            base.subrange(d + 1, base.len() as int)
        } else {
            Seq::empty()
        },
        None => Seq::empty(),
    }
}

/// The file name and the extension of a path.
pub fn file_name_ext<'a>(path: &'a str) -> (r: (&'a str, &'a str))
    ensures
        r.0@ == file_name_spec(path@),
        r.1@ == ext_spec(path@),
{
    let n: usize = path.unicode_len();
    let bs: usize = match rfind_char(path, '/') {
        Some(k) => k + 1,
        None => 0,
    };
    proof {
        if rfind_from(path@, path@.len() - 1, '/') is None {
            assert(path@.subrange(0, n as int) =~= path@);
        }
    }
    let base = path.substring_char(bs, n);
    let bn: usize = base.unicode_len();
    proof {
        assert(base@.subrange(bn as int, bn as int) =~= Seq::<char>::empty());
    }
    let ext = match rfind_char(base, '.') {
        Some(d) => {
            if d > 0 {
                base.substring_char(d + 1, bn)
            } else {
                base.substring_char(bn, bn)
            }
        }
        None => base.substring_char(bn, bn),
    };
    (base, ext)
}

/// How the tosser treats an inbound file: over 64 bytes with a named file
/// part and a three-character extension, `pkt` is a packet and an
/// extension opening with two lowercase weekday letters is a bundle.
pub open spec fn inbound_type_spec(p: Seq<char>, size: u64) -> Option<InboundType> {
    let name = file_name_spec(p);
    let ext = ext_spec(p);
    if size <= 64 || name.len() == 0 || ext.len() != 3 {
        None
    } else if ext[0] == 'p' && ext[1] == 'k' && ext[2] == 't' {
        Some(InboundType::Package)
    } else if (ext[0] == 's' && ext[1] == 'u') || (ext[0] == 'm' && ext[1] == 'o') || (ext[0] == 't'
        && ext[1] == 'u') || (ext[0] == 'w' && ext[1] == 'e') || (ext[0] == 't' && ext[1] == 'h')
        || (ext[0] == 'f' && ext[1] == 'r') || (ext[0] == 's' && ext[1] == 'a') {
        Some(InboundType::Bundle)
    } else {
        None
    }
}

pub fn classify_inbound(path: &str, size: u64) -> (r: Option<InboundType>)
    ensures
        r == inbound_type_spec(path@, size),
{
    let (name, ext) = file_name_ext(path);
    let nn: usize = name.unicode_len();
    let en: usize = ext.unicode_len();
    if size <= 64 || nn == 0 || en != 3 {
        return None;
    }
    let c0 = ext.get_char(0);
    let c1 = ext.get_char(1);
    let c2 = ext.get_char(2);
    if c0 == 'p' && c1 == 'k' && c2 == 't' {
        Some(InboundType::Package)
    } else if (c0 == 's' && c1 == 'u') || (c0 == 'm' && c1 == 'o') || (c0 == 't' && c1 == 'u') || (
    c0 == 'w' && c1 == 'e') || (c0 == 't' && c1 == 'h') || (c0 == 'f' && c1 == 'r') || (c0 == 's'
        && c1 == 'a') {
        Some(InboundType::Bundle)
    } else {
        None
    }
}

} // verus!
