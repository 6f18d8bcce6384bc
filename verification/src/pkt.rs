//! The FTS-0001 binary packet format: a fixed little-endian header, then a
//! sequence of messages of null-terminated byte fields.

use vstd::prelude::*;

verus! {

use vstd::utf8::{valid_utf8, decode_utf8};
use crate::dt::{DateTime, valid_ymd, valid_hms, check_ymd, check_hms};
use crate::codec::utf8_to_string;

/// A packet-level 4D address.
#[derive(Clone, Copy, Debug, PartialEq, Eq, Structural)]
pub struct Address {
    pub zone: u16,
    pub net: u16,
    pub node: u16,
    pub point: u16,
}

/// A message endpoint as the wire carries it: an address and a raw name.
#[derive(Debug)]
pub struct User {
    pub address: Address,
    pub name: Vec<u8>,
}

pub ghost struct PktUserV {
    pub address: Address,
    pub name: Seq<u8>,
}

impl DeepView for User {
    type V = PktUserV;

    open spec fn deep_view(&self) -> PktUserV {
        PktUserV { address: self.address, name: self.name@ }
    }
}

/// One raw packet message; all text fields are undecoded bytes.
#[derive(Debug)]
pub struct Message {
    pub posted: Vec<u8>,
    pub from: User,
    pub to: User,
    pub flags: u16,
    pub subj: Vec<u8>,
    pub text: Vec<u8>,
}

pub ghost struct PktMessageV {
    pub posted: Seq<u8>,
    pub from: PktUserV,
    pub to: PktUserV,
    pub flags: u16,
    pub subj: Seq<u8>,
    pub text: Seq<u8>,
}

impl DeepView for Message {
    type V = PktMessageV;

    open spec fn deep_view(&self) -> PktMessageV {
        PktMessageV {
            posted: self.posted@,
            from: self.from.deep_view(),
            to: self.to.deep_view(),
            flags: self.flags,
            subj: self.subj@,
            text: self.text@,
        }
    }
}

/// A decoded packet: the retained header fields and the raw messages.
#[derive(Debug)]
pub struct Package {
    pub orig: Address,
    pub dest: Address,
    pub created: DateTime,
    pub password: String,
    pub rate: u16,
    pub ver: u16,
    pub prod_code: u8,
    pub serial_no: u8,
    pub aux_net: u16,
    pub cap_word: u16,
    pub hi_product_code: u8,
    pub minor_product_rev: u8,
    pub messages: Vec<Message>,
}

pub ghost struct PackageV {
    pub orig: Address,
    pub dest: Address,
    pub created: DateTime,
    pub password: Seq<char>,
    pub rate: u16,
    pub ver: u16,
    pub prod_code: u8,
    pub serial_no: u8,
    pub aux_net: u16,
    pub cap_word: u16,
    pub hi_product_code: u8,
    pub minor_product_rev: u8,
    pub messages: Seq<PktMessageV>,
}

impl DeepView for Package {
    type V = PackageV;

    open spec fn deep_view(&self) -> PackageV {
        PackageV {
            orig: self.orig,
            dest: self.dest,
            created: self.created,
            password: self.password@,
            rate: self.rate,
            ver: self.ver,
            prod_code: self.prod_code,
            serial_no: self.serial_no,
            aux_net: self.aux_net,
            cap_word: self.cap_word,
            hi_product_code: self.hi_product_code,
            minor_product_rev: self.minor_product_rev,
            messages: self.messages.deep_view(),
        }
    }
}

/// Why a packet was rejected: an impossible creation date or time (with
/// the offending fields), bytes missing where the format demands them, or
/// a password that is no UTF-8.
#[derive(Clone, Copy, Debug, PartialEq, Eq, Structural)]
pub enum PackageError {
    InvalidDate { year: u32, month: u32, day: u32 },
    InvalidTime { hour: u32, minute: u32, second: u32 },
    Truncated,
    Password,
}

impl PackageError {
    pub fn date(year: u32, month: u32, day: u32) -> (r: Self)
        ensures
            r == (PackageError::InvalidDate { year, month, day }),
    {
        PackageError::InvalidDate { year, month, day }
    }

    pub fn time(hour: u32, minute: u32, second: u32) -> (r: Self)
        ensures
            r == (PackageError::InvalidTime { hour, minute, second }),
    {
        PackageError::InvalidTime { hour, minute, second }
    }
}

// ---------------------------------------------------------------------------
// the wire format, as mathematics
// ---------------------------------------------------------------------------

/// A little-endian 16-bit integer at offset `i`.
pub open spec fn le16(b: Seq<u8>, i: int) -> u16 {
    (b[i] as int + 256 * (b[i + 1] as int)) as u16
}

/// Index of the first NUL at or after `from`; the length when none is
/// left.
pub open spec fn find_zero(b: Seq<u8>, from: int) -> int
    decreases b.len() - from,
{
    if from < 0 || from >= b.len() {
        b.len() as int
    } else if b[from] == 0 {
        from
    } else {
        find_zero(b, from + 1)
    }
}

/// The bytes of a NUL-terminated string starting at `p`, the NUL excluded.
pub open spec fn cstr(b: Seq<u8>, p: int) -> Seq<u8> {
    b.subrange(p, find_zero(b, p))
}

/// The position just past that string's NUL, or the end of the data.
pub open spec fn cstr_next(b: Seq<u8>, p: int) -> int {
    if find_zero(b, p) == b.len() {
        b.len() as int
    } else {
        find_zero(b, p) + 1
    }
}

pub proof fn lemma_find_zero_bounds(b: Seq<u8>, from: int)
    requires
        0 <= from <= b.len(),
    ensures
        from <= find_zero(b, from) <= b.len(),
        find_zero(b, from) < b.len() ==> b[find_zero(b, from)] == 0,
        forall|j: int| from <= j < find_zero(b, from) ==> b[j] != 0,
    decreases b.len() - from,
{
    if from < b.len() && b[from] != 0 {
        lemma_find_zero_bounds(b, from + 1);
    }
}

/// The posted-length recovery: when the posted field was not 19 bytes, up
/// to the missing count of bytes is scanned; the first byte that is no NUL
/// belongs to the next field and is restored. Running out of data is a
/// truncation.
pub open spec fn recover_posted(b: Seq<u8>, p: int, m: int) -> Result<(Seq<u8>, int), PackageError>
    decreases m,
{
    if m <= 0 {
        Ok((Seq::empty(), p))
    } else if p < 0 || p >= b.len() {
        Err(PackageError::Truncated)
    } else if b[p] != 0 {
        Ok((seq![b[p]], p + 1))
    } else {
        recover_posted(b, p + 1, m - 1)
    }
}

/// One message record at `pos` (whose magic word is already seen to be
/// 2): the six little-endian words, then the five null-terminated fields,
/// with the posted-length recovery in between. Yields the message and the
/// position just past it.
pub open spec fn parse_record(b: Seq<u8>, pos: int, oz: u16, dz: u16) -> Result<
    (PktMessageV, int),
    PackageError,
> {
    if pos + 14 > b.len() {
        Err(PackageError::Truncated)
    } else {
        let p = pos + 2;
        let from_node = le16(b, p);
        let to_node = le16(b, p + 2);
        let from_net = le16(b, p + 4);
        let to_net = le16(b, p + 6);
        let flags = le16(b, p + 8);
        let q = p + 12;
        let posted0 = cstr(b, q);
        let q1 = cstr_next(b, q);
        let rec = if posted0.len() == 19 {
            Ok((posted0, Seq::<u8>::empty(), q1))
        } else {
            match recover_posted(b, q1, 19 - posted0.len()) {
                Ok(pr) => Ok((Seq::<u8>::empty(), pr.0, pr.1)),
                Err(e) => Err(e),
            }
        };
        match rec {
            Err(e) => Err(e),
            Ok(r3) => {
                let posted = r3.0;
                let q2 = r3.2;
                let to_name = r3.1 + cstr(b, q2);
                let q3 = cstr_next(b, q2);
                let from_name = cstr(b, q3);
                let q4 = cstr_next(b, q3);
                let subj = cstr(b, q4);
                let q5 = cstr_next(b, q4);
                let text = cstr(b, q5);
                let q6 = cstr_next(b, q5);
                let msg = PktMessageV {
                    posted,
                    from: PktUserV {
                        address: Address { zone: oz, net: from_net, node: from_node, point: 0 },
                        name: from_name,
                    },
                    to: PktUserV {
                        address: Address { zone: dz, net: to_net, node: to_node, point: 0 },
                        name: to_name,
                    },
                    flags,
                    subj,
                    text,
                };
                Ok((msg, q6))
            }
        }
    }
}

/// The messages of a packet from position `pos` on: a record begins with
/// the magic word 2; anything else ends the packet.
pub open spec fn parse_msgs(b: Seq<u8>, pos: int, oz: u16, dz: u16) -> Result<
    Seq<PktMessageV>,
    PackageError,
>
    decreases b.len() - pos,
{
    if pos < 0 || pos + 2 > b.len() {
        Ok(Seq::empty())
    } else if le16(b, pos) != 2 {
        Ok(Seq::empty())
    } else {
        match parse_record(b, pos, oz, dz) {
            Err(e) => Err(e),
            Ok(r) => {
                let q7 = if pos < r.1 <= b.len() {
                    r.1
                } else {
                    b.len() as int
                };
                match parse_msgs(b, q7, oz, dz) {
                    Ok(rest) => Ok(seq![r.0] + rest),
                    Err(e) => Err(e),
                }
            }
        }
    }
}

/// The password field: eight bytes, cut at the first NUL.
pub open spec fn pw_bytes(b: Seq<u8>) -> Seq<u8> {
    let pw = b.subrange(26, 34);
    pw.subrange(0, find_zero(pw, 0))
}

/// The whole packet: the FTS-0001 header at its fixed offsets (the stored
/// month is zero-based; the capability word keeps its little-endian copy;
/// the zone-info and product-data words are skipped), then the messages.
pub open spec fn parse_pkg_spec(b: Seq<u8>) -> Result<PackageV, PackageError> {
    if b.len() < 58 {
        Err(PackageError::Truncated)
    } else {
        let year = le16(b, 4) as int;
        let month = le16(b, 6) as int + 1;
        let day = le16(b, 8) as int;
        let hour = le16(b, 10) as int;
        let minute = le16(b, 12) as int;
        let second = le16(b, 14) as int;
        if !valid_ymd(year, month, day) {
            Err(PackageError::InvalidDate {
                year: year as u32,
                month: month as u32,
                day: day as u32,
            })
        } else if !valid_hms(hour, minute, second) {
            Err(PackageError::InvalidTime {
                hour: hour as u32,
                minute: minute as u32,
                second: second as u32,
            })
        } else if !valid_utf8(pw_bytes(b)) {
            Err(PackageError::Password)
        } else {
            match parse_msgs(b, 58, le16(b, 34), le16(b, 36)) {
                Err(e) => Err(e),
                Ok(ms) => Ok(
                    PackageV {
                        orig: Address {
                            zone: le16(b, 34),
                            net: le16(b, 20),
                            node: le16(b, 0),
                            point: le16(b, 50),
                        },
                        dest: Address {
                            zone: le16(b, 36),
                            net: le16(b, 22),
                            node: le16(b, 2),
                            point: le16(b, 52),
                        },
                        created: DateTime {
                            year: year as u16,
                            month: month as u8,
                            day: day as u8,
                            hour: hour as u8,
                            minute: minute as u8,
                            second: second as u8,
                        },
                        password: decode_utf8(pw_bytes(b)),
                        rate: le16(b, 16),
                        ver: le16(b, 18),
                        prod_code: b[24],
                        serial_no: b[25],
                        aux_net: le16(b, 38),
                        cap_word: le16(b, 44),
                        hi_product_code: b[42],
                        minor_product_rev: b[43],
                        messages: ms,
                    },
                ),
            }
        }
    }
}

// ---------------------------------------------------------------------------
// the decoder
// ---------------------------------------------------------------------------

fn read_u16_le(b: &[u8], i: usize) -> (r: u16)
    requires
        i + 2 <= b@.len(),
    ensures
        r == le16(b@, i as int),
{
    b[i] as u16 + 256 * (b[i + 1] as u16)
}

fn read_cstr(b: &[u8], p: usize) -> (r: (Vec<u8>, usize))
    requires
        p <= b@.len(),
    ensures
        r.0@ == cstr(b@, p as int),
        r.1 as int == cstr_next(b@, p as int),
        p <= r.1 <= b@.len(),
{
    let n: usize = b.len();
    let mut z: usize = p;
    while z < n && b[z] != 0
        invariant
            p <= z <= n,
            n == b@.len(),
            find_zero(b@, p as int) == find_zero(b@, z as int),
        decreases n - z,
    {
        z = z + 1;
    }
    proof {
        lemma_find_zero_bounds(b@, p as int);
        assert(find_zero(b@, z as int) == z);
    }
    let mut out: Vec<u8> = Vec::new();
    let mut i: usize = p;
    while i < z
        invariant
            p <= i <= z <= n,
            n == b@.len(),
            out@ == b@.subrange(p as int, i as int),
        decreases z - i,
    {
        out.push(b[i]);
        proof {
            assert(b@.subrange(p as int, i + 1) =~= b@.subrange(p as int, i as int).push(
                b@[i as int],
            ));
        }
        i = i + 1;
    }
    proof {
        assert(out@ =~= cstr(b@, p as int));
    }
    if z < n {
        (out, z + 1)
    } else {
        (out, n)
    }
}

/// One message record, exactly as `parse_record` describes it.
#[verifier::loop_isolation(false)]
fn read_record(data: &[u8], pos: usize, oz: u16, dz: u16) -> (r: Result<
    (Message, usize),
    PackageError,
>)
    requires
        pos + 2 <= data@.len(),
    ensures
        match r {
            Ok(mr) => parse_record(data@, pos as int, oz, dz) matches Ok(v) && mr.0.deep_view()
                == v.0 && mr.1 as int == v.1 && pos < mr.1 <= data@.len(),
            Err(e) => parse_record(data@, pos as int, oz, dz) matches Err(e2) && e == e2,
        },
{
    let ghost bv = data@;
    let n: usize = data.len();
    if n - pos < 14 {
        return Err(PackageError::Truncated);
    }
    let p = pos + 2;
    let from_node = read_u16_le(data, p);
    let to_node = read_u16_le(data, p + 2);
    let from_net = read_u16_le(data, p + 4);
    let to_net = read_u16_le(data, p + 6);
    let flags = read_u16_le(data, p + 8);
    let q = p + 12;
    let (posted0, q1) = read_cstr(data, q);
    let mut posted: Vec<u8> = posted0;
    let mut prefix: Vec<u8> = Vec::new();
    let mut q2: usize = q1;
    if posted.len() != 19 {
        let m: usize = if posted.len() < 19 {
            19 - posted.len()
        } else {
            0
        };
        let ghost m0 = m as int;
        let ghost q10 = q1 as int;
        posted = Vec::new();
        let mut j: usize = 0;
        let mut hit: bool = false;
        while j < m && !hit
            invariant
                0 <= j <= m,
                q1 + j <= n,
                !hit ==> recover_posted(bv, q10, m0) == recover_posted(bv, q1 + j, m0 - j),
                !hit ==> prefix@ == Seq::<u8>::empty(),
                !hit ==> q2 == q1,
                hit ==> recover_posted(bv, q10, m0) == Ok::<(Seq<u8>, int), PackageError>(
                    (prefix@, q2 as int),
                ),
                hit ==> q1 < q2 <= n,
            decreases m - j + (if hit {
                0int
            } else {
                1int
            }),
        {
            if j >= n - q1 {
                return Err(PackageError::Truncated);
            }
            let extra = data[q1 + j];
            if extra != 0 {
                prefix.push(extra);
                q2 = q1 + j + 1;
                hit = true;
                proof {
                    assert(prefix@ =~= seq![bv[q10 + j]]);
                }
            } else {
                j = j + 1;
            }
        }
        if !hit {
            q2 = q1 + m;
            proof {
                assert(recover_posted(bv, q1 + j, m0 - j) == Ok::<(Seq<u8>, int), PackageError>(
                    (Seq::<u8>::empty(), q1 + j),
                ));
            }
        }
    }
    let (rest_name, q3) = read_cstr(data, q2);
    let mut to_name: Vec<u8> = prefix;
    let ghost pfx = to_name@;
    let mut c: usize = 0;
    while c < rest_name.len()
        invariant
            c <= rest_name@.len(),
            to_name@ == pfx + rest_name@.subrange(0, c as int),
        decreases rest_name@.len() - c,
    {
        to_name.push(rest_name[c]);
        proof {
            assert(pfx + rest_name@.subrange(0, c + 1) =~= (pfx + rest_name@.subrange(
                0,
                c as int,
            )).push(rest_name@[c as int]));
        }
        c = c + 1;
    }
    proof {
        assert(rest_name@.subrange(0, rest_name@.len() as int) =~= rest_name@);
    }
    let (from_name, q4) = read_cstr(data, q3);
    let (subj, q5) = read_cstr(data, q4);
    let (text, q6) = read_cstr(data, q5);
    let msg = Message {
        posted,
        from: User {
            address: Address { zone: oz, net: from_net, node: from_node, point: 0 },
            name: from_name,
        },
        to: User {
            address: Address { zone: dz, net: to_net, node: to_node, point: 0 },
            name: to_name,
        },
        flags,
        subj,
        text,
    };
    Ok((msg, q6))
}

impl Package {
    /// Decode one packet from its bytes.
    #[verifier::loop_isolation(false)]
    pub fn read(data: &[u8]) -> (r: Result<Package, PackageError>)
        ensures
            match r {
                Ok(p) => parse_pkg_spec(data@) matches Ok(v) && p.deep_view() == v,
                Err(e) => parse_pkg_spec(data@) matches Err(e2) && e == e2,
            },
    {
        let n: usize = data.len();
        if n < 58 {
            return Err(PackageError::Truncated);
        }
        let year: u32 = read_u16_le(data, 4) as u32;
        let month: u32 = read_u16_le(data, 6) as u32 + 1;
        let day: u32 = read_u16_le(data, 8) as u32;
        let hour: u32 = read_u16_le(data, 10) as u32;
        let minute: u32 = read_u16_le(data, 12) as u32;
        let second: u32 = read_u16_le(data, 14) as u32;
        if !check_ymd(year, month, day) {
            return Err(PackageError::date(year, month, day));
        }
        if !check_hms(hour, minute, second) {
            return Err(PackageError::time(hour, minute, second));
        }
        // the password: eight bytes, NUL-padded
        let mut pw: Vec<u8> = Vec::new();
        let mut i: usize = 26;
        while i < 34 && data[i] != 0
            invariant
                26 <= i <= 34,
                n == data@.len(),
                n >= 58,
                pw@ == data@.subrange(26, i as int),
                forall|j: int| 26 <= j < i ==> data@[j] != 0,
            decreases 34 - i,
        {
            pw.push(data[i]);
            proof {
                assert(data@.subrange(26, i + 1) =~= data@.subrange(26, i as int).push(
                    data@[i as int],
                ));
            }
            i = i + 1;
        }
        proof {
            let pwall = data@.subrange(26, 34);
            lemma_find_zero_bounds(pwall, 0);
            assert(forall|j: int| 0 <= j < 8 ==> pwall[j] == data@[26 + j]);
            assert(find_zero(pwall, 0) == i - 26) by {
                if i < 34 {
                    assert(pwall[i - 26] == 0);
                }
                if find_zero(pwall, 0) < i - 26 {
                    assert(pwall[find_zero(pwall, 0)] == 0);
                }
                if find_zero(pwall, 0) > i - 26 && i < 34 {
                    assert(pwall[i - 26] != 0);
                }
            }
            assert(pw@ =~= pw_bytes(data@));
        }
        let password: String = match utf8_to_string(pw.as_slice()) {
            Ok(s) => s,
            Err(_) => {
                return Err(PackageError::Password);
            }
        };
        let orig_zone = read_u16_le(data, 34);
        let dest_zone = read_u16_le(data, 36);
        // the messages
        let ghost bv = data@;
        let mut messages: Vec<Message> = Vec::new();
        let mut pos: usize = 58;
        let mut done: bool = false;
        proof {
            assert(messages.deep_view() =~= Seq::<PktMessageV>::empty());
        }
        while !done
            invariant
                58 <= pos <= n,
                n == bv.len(),
                bv == data@,
                n >= 58,
                orig_zone == le16(bv, 34),
                dest_zone == le16(bv, 36),
                !done ==> parse_msgs(bv, 58, orig_zone, dest_zone) == (match parse_msgs(
                    bv,
                    pos as int,
                    orig_zone,
                    dest_zone,
                ) {
                    Ok(rest) => Ok::<Seq<PktMessageV>, PackageError>(messages.deep_view() + rest),
                    Err(e) => Err(e),
                }),
                done ==> parse_msgs(bv, 58, orig_zone, dest_zone) == Ok::<
                    Seq<PktMessageV>,
                    PackageError,
                >(messages.deep_view()),
            decreases n - pos + (if done {
                0int
            } else {
                1int
            }),
        {
            if pos > n - 2 {
                proof {
                    assert(parse_msgs(bv, pos as int, orig_zone, dest_zone) == Ok::<
                        Seq<PktMessageV>,
                        PackageError,
                    >(Seq::empty()));
                    assert(messages.deep_view() + Seq::<PktMessageV>::empty()
                        =~= messages.deep_view());
                }
                done = true;
            } else {
                let w = read_u16_le(data, pos);
                if w != 2 {
                    proof {
                        assert(parse_msgs(bv, pos as int, orig_zone, dest_zone) == Ok::<
                            Seq<PktMessageV>,
                            PackageError,
                        >(Seq::empty()));
                        assert(messages.deep_view() + Seq::<PktMessageV>::empty()
                            =~= messages.deep_view());
                    }
                    done = true;
                } else {
                    match read_record(data, pos, orig_zone, dest_zone) {
                        Err(e) => {
                            return Err(e);
                        }
                        Ok(mr) => {
                            let (msg, np) = mr;
                            let ghost before = messages.deep_view();
                            let ghost msgv = msg.deep_view();
                            messages.push(msg);
                            proof {
                                assert(messages.deep_view() =~= before.push(msgv));
                                assert(before.push(msgv) =~= before + seq![msgv]);
                                let pm = parse_msgs(bv, np as int, orig_zone, dest_zone);
                                if pm is Ok {
                                    let rest = pm->Ok_0;
                                    assert((before + seq![msgv]) + rest =~= before + (seq![msgv]
                                        + rest));
                                }
                            }
                            pos = np;
                        }
                    }
                }
            }
        }
        let p = Package {
            orig: Address {
                zone: orig_zone,
                net: read_u16_le(data, 20),
                node: read_u16_le(data, 0),
                point: read_u16_le(data, 50),
            },
            dest: Address {
                zone: dest_zone,
                net: read_u16_le(data, 22),
                node: read_u16_le(data, 2),
                point: read_u16_le(data, 52),
            },
            created: DateTime {
                year: year as u16,
                month: month as u8,
                day: day as u8,
                hour: hour as u8,
                minute: minute as u8,
                second: second as u8,
            },
            password,
            rate: read_u16_le(data, 16),
            ver: read_u16_le(data, 18),
            prod_code: data[24],
            serial_no: data[25],
            aux_net: read_u16_le(data, 38),
            cap_word: read_u16_le(data, 44),
            hi_product_code: data[42],
            minor_product_rev: data[43],
            messages,
        };
        Ok(p)
    }
}

} // verus!
