//! Daily mail bundles: ZIP archives whose `.pkt` entries are packets.

use vstd::prelude::*;
use std::io::Read;

verus! {

use vstd::string::StrSliceExecFns;
use crate::pkt::{Package, PackageV, PackageError, parse_pkg_spec};
use crate::util::{rfind_from, rfind_char, str_eq};

/// Why a bundle was rejected: a broken archive, an unreadable entry, or a
/// packet that did not decode.
#[derive(Clone, Copy, Debug, PartialEq, Eq, Structural)]
pub enum BundleError {
    Archive,
    Entry,
    Package(PackageError),
}

/// Whether the archive opens and every entry's stored name can be read;
/// a pure function of the archive bytes.
pub uninterp spec fn zip_wellformed(data: Seq<u8>) -> bool;

/// The stored names of the archive's entries, in index order; a pure
/// function of the archive bytes.
pub uninterp spec fn zip_names_of(data: Seq<u8>) -> Seq<Seq<char>>;

/// Whether the entry at an index can be decompressed in whole; a pure
/// function of the archive bytes.
pub uninterp spec fn zip_entry_readable(data: Seq<u8>, i: int) -> bool;

/// The decompressed bytes of the archive entry at an index; a pure
/// function of the archive bytes.
pub uninterp spec fn zip_data_of(data: Seq<u8>, i: int) -> Seq<u8>;

/// Relies on zip's ZipArchive::new, len, by_index and ZipFile::name: the
/// entries' stored names, in index order. Whether they can be read is a
/// function of the bytes alone, which `zip_wellformed` names.
#[verifier::external_body]
fn zip_entry_names(data: &[u8]) -> (r: Result<Vec<String>, BundleError>)
    ensures
        r is Ok <==> zip_wellformed(data@),
        r matches Ok(v) ==> v.deep_view() == zip_names_of(data@),
        r matches Err(e) ==> e == BundleError::Archive,
{
    let cur = std::io::Cursor::new(data);
    let mut arc = match zip::ZipArchive::new(cur) {
        Ok(a) => a,
        Err(_) => return Err(BundleError::Archive),
    };
    let mut names = Vec::new();
    for i in 0..arc.len() {
        match arc.by_index(i) {
            Ok(f) => names.push(f.name().to_string()),
            Err(_) => return Err(BundleError::Archive),
        }
    }
    Ok(names)
}

/// Relies on zip's by_index and io::Read: the decompressed bytes of the
/// entry at `i`. Whether the entry decompresses is a function of the
/// bytes alone, which `zip_entry_readable` names.
#[verifier::external_body]
fn zip_entry_data(data: &[u8], i: usize) -> (r: Result<Vec<u8>, BundleError>)
    ensures
        r is Ok <==> zip_entry_readable(data@, i as int),
        r matches Ok(v) ==> v@ == zip_data_of(data@, i as int),
        r matches Err(e) ==> e == BundleError::Entry,
{
    let cur = std::io::Cursor::new(data);
    let mut arc = match zip::ZipArchive::new(cur) {
        Ok(a) => a,
        Err(_) => return Err(BundleError::Entry),
    };
    let mut f = match arc.by_index(i) {
        Ok(f) => f,
        Err(_) => return Err(BundleError::Entry),
    };
    let mut out = Vec::new();
    match f.read_to_end(&mut out) {
        Ok(_) => Ok(out),
        Err(_) => Err(BundleError::Entry),
    }
}

/// An entry name whose last slash-separated component carries the `pkt`
/// extension.
pub open spec fn pkt_entry(name: Seq<char>) -> bool {
    let bs = match rfind_from(name, name.len() - 1, '/') {
        Some(k) => k + 1,
        None => 0int,
    };
    let base = name.subrange(bs, name.len() as int);
    match rfind_from(base, base.len() - 1, '.') {
        Some(d) => d > 0 && base.subrange(d + 1, base.len() as int) == "pkt"@,
        None => false,
    }
}

fn is_pkt_name(name: &str) -> (r: bool)
    ensures
        r == pkt_entry(name@),
{
    let n: usize = name.unicode_len();
    let bs: usize = match rfind_char(name, '/') {
        Some(k) => k + 1,
        None => 0,
    };
    let base = name.substring_char(bs, n);
    let bn: usize = base.unicode_len();
    match rfind_char(base, '.') {
        Some(d) => {
            if d > 0 {
                str_eq(base.substring_char(d + 1, bn), "pkt")
            } else {
                false
            }
        }
        None => false,
    }
}

/// A bundle: the packets of the archive's `.pkt` entries, in entry order.
#[derive(Debug)]
pub struct Bundle {
    pub packages: Vec<Package>,
}

/// The packets of the `.pkt` entries from index `i` on; any unreadable
/// entry or undecodable packet aborts the whole bundle.
pub open spec fn bundle_rec(data: Seq<u8>, names: Seq<Seq<char>>, i: int) -> Result<
    Seq<PackageV>,
    BundleError,
>
    decreases names.len() - i,
{
    if i < 0 || i >= names.len() {
        Ok(Seq::empty())
    } else if !pkt_entry(names[i]) {
        bundle_rec(data, names, i + 1)
    } else if !zip_entry_readable(data, i) {
        Err(BundleError::Entry)
    } else {
        match parse_pkg_spec(zip_data_of(data, i)) {
            Err(e) => Err(BundleError::Package(e)),
            Ok(p) => match bundle_rec(data, names, i + 1) {
                Ok(rest) => Ok(seq![p] + rest),
                Err(e) => Err(e),
            },
        }
    }
}

/// The whole bundle: an archive that does not open or list is rejected,
/// else the packets of its `.pkt` entries, all or nothing.
pub open spec fn bundle_spec(data: Seq<u8>) -> Result<Seq<PackageV>, BundleError> {
    if !zip_wellformed(data) {
        Err(BundleError::Archive)
    } else {
        bundle_rec(data, zip_names_of(data), 0)
    }
}

impl Bundle {
    /// Decode the packets of one bundle. Entries that are no `.pkt` are
    /// skipped; a failure on the archive, on an entry or on any packet
    /// aborts the bundle.
    #[verifier::loop_isolation(false)]
    pub fn read(data: &[u8]) -> (r: Result<Bundle, BundleError>)
        ensures
            match r {
                Ok(b) => bundle_spec(data@) matches Ok(ps) && b.packages.deep_view() == ps,
                Err(e) => bundle_spec(data@) matches Err(e2) && e == e2,
            },
    {
        let names: Vec<String> = match zip_entry_names(data) {
            Ok(v) => v,
            Err(e) => {
                return Err(e);
            }
        };
        let ghost nv = zip_names_of(data@);
        let mut packages: Vec<Package> = Vec::new();
        let mut i: usize = 0;
        proof {
            assert(packages.deep_view() =~= Seq::<PackageV>::empty());
        }
        while i < names.len()
            invariant
                i <= names@.len(),
                names.deep_view() == nv,
                bundle_rec(data@, nv, 0) == (match bundle_rec(data@, nv, i as int) {
                    Ok(rest) => Ok::<Seq<PackageV>, BundleError>(packages.deep_view() + rest),
                    Err(e) => Err(e),
                }),
            decreases names@.len() - i,
        {
            proof {
                assert(names.deep_view()[i as int] == names@[i as int]@);
            }
            if is_pkt_name(names[i].as_str()) {
                let bytes: Vec<u8> = match zip_entry_data(data, i) {
                    Ok(v) => v,
                    Err(e) => {
                        return Err(e);
                    }
                };
                match Package::read(bytes.as_slice()) {
                    Ok(p) => {
                        let ghost before = packages.deep_view();
                        let ghost pv = p.deep_view();
                        packages.push(p);
                        proof {
                            assert(packages.deep_view() =~= before.push(pv));
                            assert(before.push(pv) =~= before + seq![pv]);
                            let rec = bundle_rec(data@, nv, i + 1);
                            if rec is Ok {
                                let rest = rec->Ok_0;
                                assert((before + seq![pv]) + rest =~= before + (seq![pv] + rest));
                            }
                        }
                    }
                    Err(e) => {
                        return Err(BundleError::Package(e));
                    }
                }
            }
            i = i + 1;
        }
        proof {
            assert(bundle_rec(data@, nv, i as int) == Ok::<Seq<PackageV>, BundleError>(
                Seq::empty(),
            ));
            assert(packages.deep_view() + Seq::<PackageV>::empty() =~= packages.deep_view());
        }
        Ok(Bundle { packages })
    }
}

} // verus!
