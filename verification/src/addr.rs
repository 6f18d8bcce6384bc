//! FTN addresses (FRL-1002), message identifiers, and net/node pair lists.

use vstd::prelude::*;

verus! {

use vstd::string::{StrSliceExecFns, StringExecFns};
use crate::util::{
    is_digit, digit_val, dec_val, scan_u16, scan_u16_rec, scan_hex, NumParse, find_from,
    find2_from, rfind_from, find_char_from, find_char2_from, rfind_char, scan_u16_range,
    scan_hex_range,
};

/// Fidonet address according to FRL-1002.
#[derive(Debug, PartialEq, Eq)]
pub struct Address {
    pub zone: u16,
    pub net: u16,
    pub node: u16,
    pub point: u16,
    pub domain: Option<String>,
}

/// Mathematical view of an [`Address`].
pub ghost struct AddressV {
    pub zone: u16,
    pub net: u16,
    pub node: u16,
    pub point: u16,
    pub domain: Option<Seq<char>>,
}

impl View for Address {
    type V = AddressV;

    open spec fn view(&self) -> AddressV {
        AddressV {
            zone: self.zone,
            net: self.net,
            node: self.node,
            point: self.point,
            domain: match self.domain {
                Some(d) => Some(d@),
                None => None,
            },
        }
    }
}

impl Address {
    pub fn empty() -> (r: Self)
        ensures
            r@ == (AddressV { zone: 0, net: 0, node: 0, point: 0, domain: None }),
    {
        Self::full(0, 0, 0, 0, None)
    }

    pub fn new_4d(zone: u16, net: u16, node: u16, point: u16) -> (r: Self)
        ensures
            r@ == (AddressV { zone, net, node, point, domain: None }),
    {
        Self::full(zone, net, node, point, None)
    }

    pub fn full(zone: u16, net: u16, node: u16, point: u16, domain: Option<String>) -> (r: Self)
        ensures
            r@ == (AddressV {
                zone,
                net,
                node,
                point,
                domain: match domain {
                    Some(d) => Some(d@),
                    None => None,
                },
            }),
    {
        Self { zone, net, node, point, domain }
    }
}

#[derive(Clone, Copy, Debug, PartialEq, Eq, Structural)]
pub enum ParseAddressError {
    InvalidFormat,
    Overflow,
}

pub open spec fn addr_num_err(n: NumParse) -> ParseAddressError {
    match n {
        NumParse::TooBig => ParseAddressError::Overflow,
        _ => ParseAddressError::InvalidFormat,
    }
}

/// The address grammar `zone ":" net "/" node [ "." point ] [ "@" domain ]`:
/// the zone ends at the first `:`, the net at the first `/` after it, the
/// node at the first `.` or `@` after that (or the end), a point at the
/// first `@` after the dot (or the end), and the domain is the rest.
pub open spec fn parse_address_spec(s: Seq<char>) -> Result<AddressV, ParseAddressError> {
    match find_from(s, 0, ':') {
        None => Err(ParseAddressError::InvalidFormat),
        Some(ci) => {
            let zp = scan_u16(s.subrange(0, ci));
            match zp {
                NumParse::Value(zone) => match find_from(s, ci + 1, '/') {
                    None => Err(ParseAddressError::InvalidFormat),
                    Some(si) => {
                        let np = scan_u16(s.subrange(ci + 1, si));
                        match np {
                            NumParse::Value(net) => {
                                let ne = match find2_from(s, si + 1, '.', '@') {
                                    Some(k) => k,
                                    None => s.len() as int,
                                };
                                let dp = scan_u16(s.subrange(si + 1, ne));
                                match dp {
                                    NumParse::Value(node) => if ne == s.len() {
                                        Ok(AddressV { zone, net, node, point: 0, domain: None })
                                    } else if s[ne] == '@' {
                                        Ok(AddressV {
                                            zone,
                                            net,
                                            node,
                                            point: 0,
                                            domain: Some(s.subrange(ne + 1, s.len() as int)),
                                        })
                                    } else {
                                        let pe = match find_from(s, ne + 1, '@') {
                                            Some(k) => k,
                                            None => s.len() as int,
                                        };
                                        let pp = scan_u16(s.subrange(ne + 1, pe));
                                        match pp {
                                            NumParse::Value(point) => if pe == s.len() {
                                                Ok(AddressV { zone, net, node, point, domain: None })
                                            } else {
                                                Ok(AddressV {
                                                    zone,
                                                    net,
                                                    node,
                                                    point,
                                                    domain: Some(
                                                        s.subrange(pe + 1, s.len() as int),
                                                    ),
                                                })
                                            },
                                            _ => Err(addr_num_err(pp)),
                                        }
                                    },
                                    _ => Err(addr_num_err(dp)),
                                }
                            }
                            _ => Err(addr_num_err(np)),
                        }
                    }
                },
                _ => Err(addr_num_err(zp)),
            }
        }
    }
}

impl Address {
    /// Parse the `zone:net/node[.point][@domain]` form.
    pub fn from_str(s: &str) -> (r: Result<Address, ParseAddressError>)
        ensures
            match r {
                Ok(a) => parse_address_spec(s@) matches Ok(v) && a@ == v,
                Err(e) => parse_address_spec(s@) matches Err(e2) && e == e2,
            },
    {
        let n: usize = s.unicode_len();
        let ci: usize = match find_char_from(s, 0, ':') {
            Some(i) => i,
            None => {
                return Err(ParseAddressError::InvalidFormat);
            }
        };
        let zone: u16 = match scan_u16_range(s, 0, ci) {
            NumParse::Value(v) => v,
            NumParse::TooBig => {
                return Err(ParseAddressError::Overflow);
            }
            NumParse::Malformed => {
                return Err(ParseAddressError::InvalidFormat);
            }
        };
        let si: usize = match find_char_from(s, ci + 1, '/') {
            Some(i) => i,
            None => {
                return Err(ParseAddressError::InvalidFormat);
            }
        };
        let net: u16 = match scan_u16_range(s, ci + 1, si) {
            NumParse::Value(v) => v,
            NumParse::TooBig => {
                return Err(ParseAddressError::Overflow);
            }
            NumParse::Malformed => {
                return Err(ParseAddressError::InvalidFormat);
            }
        };
        let ne: usize = match find_char2_from(s, si + 1, '.', '@') {
            Some(i) => i,
            None => n,
        };
        let node: u16 = match scan_u16_range(s, si + 1, ne) {
            NumParse::Value(v) => v,
            NumParse::TooBig => {
                return Err(ParseAddressError::Overflow);
            }
            NumParse::Malformed => {
                return Err(ParseAddressError::InvalidFormat);
            }
        };
        if ne == n {
            return Ok(Address::full(zone, net, node, 0, None));
        }
        if s.get_char(ne) == '@' {
            let dom = s.substring_char(ne + 1, n).to_owned();
            return Ok(Address::full(zone, net, node, 0, Some(dom)));
        }
        let pe: usize = match find_char_from(s, ne + 1, '@') {
            Some(i) => i,
            None => n,
        };
        let point: u16 = match scan_u16_range(s, ne + 1, pe) {
            NumParse::Value(v) => v,
            NumParse::TooBig => {
                return Err(ParseAddressError::Overflow);
            }
            NumParse::Malformed => {
                return Err(ParseAddressError::InvalidFormat);
            }
        };
        if pe == n {
            Ok(Address::full(zone, net, node, point, None))
        } else {
            let dom = s.substring_char(pe + 1, n).to_owned();
            Ok(Address::full(zone, net, node, point, Some(dom)))
        }
    }
}

// ---------------------------------------------------------------------------
// laws of the address grammar
// ---------------------------------------------------------------------------

pub open spec fn digit_char(d: int) -> char {
    if d == 0 {
        '0'
    } else if d == 1 {
        '1'
    } else if d == 2 {
        '2'
    } else if d == 3 {
        '3'
    } else if d == 4 {
        '4'
    } else if d == 5 {
        '5'
    } else if d == 6 {
        '6'
    } else if d == 7 {
        '7'
    } else if d == 8 {
        '8'
    } else {
        '9'
    }
}

/// The decimal writing of a number, most significant digit first.
pub open spec fn dec_str(n: int) -> Seq<char>
    decreases n,
{
    if n < 10 {
        seq![digit_char(n)]
    } else {
        dec_str(n / 10).push(digit_char(n % 10))
    }
}

pub open spec fn all_digits(s: Seq<char>) -> bool {
    forall|i: int| 0 <= i < s.len() ==> is_digit(#[trigger] s[i])
}

pub open spec fn pow10(k: nat) -> int
    decreases k,
{
    if k == 0 {
        1
    } else {
        10 * pow10((k - 1) as nat)
    }
}

proof fn lemma_pow10_pos(k: nat)
    ensures
        pow10(k) >= 1,
    decreases k,
{
    if k > 0 {
        lemma_pow10_pos((k - 1) as nat);
    }
}

proof fn lemma_dec_val_nonneg(s: Seq<char>)
    requires
        all_digits(s),
    ensures
        dec_val(s) >= 0,
    decreases s.len(),
{
    if s.len() > 0 {
        let d = s.drop_last();
        assert(forall|i: int| 0 <= i < d.len() ==> is_digit(#[trigger] d[i]));
        lemma_dec_val_nonneg(d);
    }
}

proof fn lemma_dec_str_digits(n: int)
    requires
        0 <= n,
    ensures
        dec_str(n).len() >= 1,
        all_digits(dec_str(n)),
        dec_val(dec_str(n)) == n,
    decreases n,
{
    if n < 10 {
        let s = dec_str(n);
        assert(s =~= seq![digit_char(n)]);
        assert(s.drop_last() =~= Seq::<char>::empty());
        assert(s.last() == digit_char(n));
        assert(dec_val(s) == dec_val(Seq::<char>::empty()) * 10 + digit_val(digit_char(n)));
        assert(digit_val(digit_char(n)) == n);
    } else {
        lemma_dec_str_digits(n / 10);
        let s = dec_str(n);
        assert(s.drop_last() =~= dec_str(n / 10));
        assert(s.last() == digit_char(n % 10));
        assert(digit_val(digit_char(n % 10)) == n % 10);
        assert(dec_val(s) == (n / 10) * 10 + n % 10);
    }
}

/// The value of a digit string, read from the first digit.
proof fn lemma_dec_val_first(s: Seq<char>)
    requires
        s.len() >= 1,
    ensures
        dec_val(s) == digit_val(s[0]) * pow10((s.len() - 1) as nat) + dec_val(s.drop_first()),
    decreases s.len(),
{
    if s.len() == 1 {
        assert(s.drop_last() =~= Seq::<char>::empty());
        assert(s.drop_first() =~= Seq::<char>::empty());
    } else {
        let d = s.drop_last();
        lemma_dec_val_first(d);
        assert(s.drop_first().drop_last() =~= d.drop_first());
        assert(s.drop_first().last() == s.last());
        assert(d[0] == s[0]);
        let k = (s.len() - 2) as nat;
        assert(dec_val(s) == dec_val(d) * 10 + digit_val(s.last()));
        assert(dec_val(d) == digit_val(s[0]) * pow10(k) + dec_val(d.drop_first()));
        assert(dec_val(s.drop_first()) == dec_val(d.drop_first()) * 10 + digit_val(s.last()));
        assert((digit_val(s[0]) * pow10(k) + dec_val(d.drop_first())) * 10 == digit_val(s[0]) * (10
            * pow10(k)) + dec_val(d.drop_first()) * 10) by (nonlinear_arith);
        assert(pow10((s.len() - 1) as nat) == 10 * pow10(k));
    }
}

proof fn lemma_scan_of_digits(s: Seq<char>, acc: int)
    requires
        all_digits(s),
        0 <= acc,
        acc * pow10(s.len()) + dec_val(s) <= 0xFFFF,
    ensures
        scan_u16_rec(s, acc) == NumParse::Value((acc * pow10(s.len()) + dec_val(s)) as u16),
    decreases s.len(),
{
    lemma_pow10_pos(s.len());
    lemma_dec_val_nonneg(s);
    if s.len() == 0 {
        assert(acc * 1 == acc) by (nonlinear_arith);
    } else {
        lemma_dec_val_first(s);
        let d = s.drop_first();
        assert(all_digits(d));
        lemma_dec_val_nonneg(d);
        let k = (s.len() - 1) as nat;
        lemma_pow10_pos(k);
        let acc2 = acc * 10 + digit_val(s[0]);
        assert(acc2 * pow10(k) + dec_val(d) == acc * pow10(s.len()) + dec_val(s)) by {
            assert((acc * 10 + digit_val(s[0])) * pow10(k) == acc * (10 * pow10(k)) + digit_val(
                s[0],
            ) * pow10(k)) by (nonlinear_arith);
            assert(pow10(s.len()) == 10 * pow10(k));
        }
        assert(acc2 <= 0xFFFF) by {
            assert(acc2 * pow10(k) >= acc2 * 1) by (nonlinear_arith)
                requires
                    acc2 >= 0,
                    pow10(k) >= 1,
            ;
        }
        lemma_scan_of_digits(d, acc2);
    }
}

proof fn lemma_scan_of_value(n: int)
    requires
        0 <= n <= 0xFFFF,
    ensures
        scan_u16(dec_str(n)) == NumParse::Value(n as u16),
{
    lemma_dec_str_digits(n);
    lemma_scan_of_digits(dec_str(n), 0);
}

/// The decimal writing of an address: `zone:net/node`, the point appended
/// after a dot when nonzero, the domain after an at sign when present.
pub open spec fn format_address_spec(a: AddressV) -> Seq<char> {
    let core3 = dec_str(a.zone as int) + seq![':'] + dec_str(a.net as int) + seq!['/'] + dec_str(
        a.node as int,
    );
    let with_pt = if a.point != 0 {
        core3 + seq!['.'] + dec_str(a.point as int)
    } else {
        core3
    };
    match a.domain {
        Some(d) => with_pt + seq!['@'] + d,
        None => with_pt,
    }
}

/// Writing any address down and parsing it again yields the same fields:
/// a 3D form comes back with point zero and no domain, 4D and 5D forms
/// come back exactly, and an at sign with nothing after it comes back as
/// the empty domain.
#[verifier::rlimit(100)]
#[verifier::spinoff_prover]
pub proof fn lemma_address_round_trip(a: AddressV)
    ensures
        parse_address_spec(format_address_spec(a)) == Ok::<AddressV, ParseAddressError>(a),
{
    let za = dec_str(a.zone as int);
    let nb = dec_str(a.net as int);
    let db = dec_str(a.node as int);
    let pb = dec_str(a.point as int);
    lemma_dec_str_digits(a.zone as int);
    lemma_dec_str_digits(a.net as int);
    lemma_dec_str_digits(a.node as int);
    lemma_dec_str_digits(a.point as int);
    lemma_scan_of_value(a.zone as int);
    lemma_scan_of_value(a.net as int);
    lemma_scan_of_value(a.node as int);
    lemma_scan_of_value(a.point as int);
    let s = format_address_spec(a);
    let ci = za.len() as int;
    let si = ci + 1 + nb.len() as int;
    let ne = si + 1 + db.len() as int;
    // the digit regions and the separators of the written form
    assert(forall|j: int| 0 <= j < za.len() ==> s[j] == za[j]);
    assert(s[ci] == ':');
    assert(forall|j: int| 0 <= j < nb.len() ==> s[ci + 1 + j] == nb[j]);
    assert(s[si] == '/');
    assert(forall|j: int| 0 <= j < db.len() ==> s[si + 1 + j] == db[j]);
    assert(s.subrange(0, ci) =~= za);
    assert(s.subrange(ci + 1, si) =~= nb);
    assert(s.subrange(si + 1, ne) =~= db);
    // a digit is none of the separators
    assert(forall|j: int| 0 <= j < za.len() ==> is_digit(#[trigger] za[j]) && za[j] != ':');
    crate::util::lemma_find_from_is(s, 0, ':', ci);
    assert(forall|j: int|
        ci + 1 <= j < si ==> is_digit(#[trigger] s[j]) && s[j] != '/');
    crate::util::lemma_find_from_is(s, ci + 1, '/', si);
    if a.point == 0 {
        match a.domain {
            None => {
                assert(s.len() == ne);
                assert(forall|j: int|
                    si + 1 <= j < ne ==> is_digit(#[trigger] s[j]) && s[j] != '.' && s[j] != '@');
                crate::util::lemma_find2_from_none(s, si + 1, '.', '@');
            }
            Some(d) => {
                assert(s[ne] == '@');
                assert(forall|j: int|
                    si + 1 <= j < ne ==> is_digit(#[trigger] s[j]) && s[j] != '.' && s[j] != '@');
                crate::util::lemma_find2_from_is(s, si + 1, '.', '@', ne);
                assert(s.subrange(ne + 1, s.len() as int) =~= d);
            }
        }
    } else {
        assert(s[ne] == '.');
        assert(forall|j: int|
            si + 1 <= j < ne ==> is_digit(#[trigger] s[j]) && s[j] != '.' && s[j] != '@');
        crate::util::lemma_find2_from_is(s, si + 1, '.', '@', ne);
        let pe = ne + 1 + pb.len() as int;
        assert(forall|j: int| 0 <= j < pb.len() ==> s[ne + 1 + j] == pb[j]);
        assert(s.subrange(ne + 1, pe) =~= pb);
        match a.domain {
            None => {
                assert(s.len() == pe);
                assert(forall|j: int|
                    ne + 1 <= j < pe ==> is_digit(#[trigger] s[j]) && s[j] != '@');
                crate::util::lemma_find_from_none(s, ne + 1, '@');
            }
            Some(d) => {
                assert(s[pe] == '@');
                assert(forall|j: int|
                    ne + 1 <= j < pe ==> is_digit(#[trigger] s[j]) && s[j] != '@');
                crate::util::lemma_find_from_is(s, ne + 1, '@', pe);
                assert(s.subrange(pe + 1, s.len() as int) =~= d);
            }
        }
    }
}

// ---------------------------------------------------------------------------
// message identifiers
// ---------------------------------------------------------------------------

/// The address half of a MSGID/REPLY: either a parseable FTN address or a
/// foreign (for instance internet-style) identifier kept verbatim.
#[derive(Debug, PartialEq, Eq)]
pub enum AddressKind {
    Native(Address),
    External(String),
}

pub ghost enum AddressKindV {
    Native(AddressV),
    External(Seq<char>),
}

impl View for AddressKind {
    type V = AddressKindV;

    open spec fn view(&self) -> AddressKindV {
        match self {
            AddressKind::Native(a) => AddressKindV::Native(a@),
            AddressKind::External(s) => AddressKindV::External(s@),
        }
    }
}

#[derive(Debug, PartialEq, Eq)]
pub struct MessageId {
    pub addr: AddressKind,
    pub serial: u32,
}

pub ghost struct MessageIdV {
    pub addr: AddressKindV,
    pub serial: u32,
}

impl View for MessageId {
    type V = MessageIdV;

    open spec fn view(&self) -> MessageIdV {
        MessageIdV { addr: self.addr@, serial: self.serial }
    }
}

#[derive(Clone, Copy, Debug, PartialEq, Eq, Structural)]
pub enum ParseMessageIdError {
    InvalidFormat,
}

impl MessageId {
    pub fn native(addr: Address, serial: u32) -> (r: Self)
        ensures
            r@ == (MessageIdV { addr: AddressKindV::Native(addr@), serial }),
    {
        Self { addr: AddressKind::Native(addr), serial }
    }

    pub fn ext(addr: String, serial: u32) -> (r: Self)
        ensures
            r@ == (MessageIdV { addr: AddressKindV::External(addr@), serial }),
    {
        Self { addr: AddressKind::External(addr), serial }
    }
}

/// The `addr SP serial` grammar, split at the last space: the serial is one
/// to eight hexadecimal digits; the left side is kept verbatim when it is no
/// FTN address.
pub open spec fn parse_msgid_spec(s: Seq<char>) -> Result<MessageIdV, ParseMessageIdError> {
    match rfind_from(s, s.len() - 1, ' ') {
        None => Err(ParseMessageIdError::InvalidFormat),
        Some(sp) => match scan_hex(s.subrange(sp + 1, s.len() as int)) {
            None => Err(ParseMessageIdError::InvalidFormat),
            Some(serial) => {
                let left = s.subrange(0, sp);
                match parse_address_spec(left) {
                    Ok(a) => Ok(MessageIdV { addr: AddressKindV::Native(a), serial }),
                    Err(_) => Ok(MessageIdV { addr: AddressKindV::External(left), serial }),
                }
            }
        },
    }
}

impl MessageId {
    pub fn from_str(s: &str) -> (r: Result<MessageId, ParseMessageIdError>)
        ensures
            match r {
                Ok(id) => parse_msgid_spec(s@) matches Ok(v) && id@ == v,
                Err(e) => parse_msgid_spec(s@) matches Err(e2) && e == e2,
            },
    {
        let n: usize = s.unicode_len();
        let sp: usize = match rfind_char(s, ' ') {
            Some(i) => i,
            None => {
                return Err(ParseMessageIdError::InvalidFormat);
            }
        };
        let serial: u32 = match scan_hex_range(s, sp + 1, n) {
            Some(v) => v,
            None => {
                return Err(ParseMessageIdError::InvalidFormat);
            }
        };
        let left = s.substring_char(0, sp);
        match Address::from_str(left) {
            Ok(a) => Ok(MessageId::native(a, serial)),
            Err(_) => Ok(MessageId::ext(left.to_owned(), serial)),
        }
    }
}

// ---------------------------------------------------------------------------
// net/node pair lists (SEEN-BY and PATH)
// ---------------------------------------------------------------------------

pub type NetNodePair = (u16, u16);

#[derive(Clone, Copy, Debug, PartialEq, Eq, Structural)]
pub enum NetNodePairError {
    InvalidFormat,
    Overflow,
}

pub open spec fn pair_num_err(n: NumParse) -> NetNodePairError {
    match n {
        NumParse::TooBig => NetNodePairError::Overflow,
        _ => NetNodePairError::InvalidFormat,
    }
}

/// One space-separated token: `net/node` sets the current net, a bare `node`
/// inherits it from the pairs gathered so far and fails when there are none.
pub open spec fn pair_token_spec(tok: Seq<char>, acc: Seq<NetNodePair>) -> Result<
    NetNodePair,
    NetNodePairError,
> {
    match find_from(tok, 0, '/') {
        Some(k) => {
            let k2 = match find_from(tok, k + 1, '/') {
                Some(j) => j,
                None => tok.len() as int,
            };
            let np = scan_u16(tok.subrange(0, k));
            match np {
                NumParse::Value(net) => {
                    let dp = scan_u16(tok.subrange(k + 1, k2));
                    match dp {
                        NumParse::Value(node) => Ok((net, node)),
                        _ => Err(pair_num_err(dp)),
                    }
                }
                _ => Err(pair_num_err(np)),
            }
        }
        None => if acc.len() == 0 {
            Err(NetNodePairError::InvalidFormat)
        } else {
            let dp = scan_u16(tok);
            match dp {
                NumParse::Value(node) => Ok((acc.last().0, node)),
                _ => Err(pair_num_err(dp)),
            }
        },
    }
}

pub open spec fn pairs_rec(s: Seq<char>, acc: Seq<NetNodePair>) -> Result<
    Seq<NetNodePair>,
    NetNodePairError,
>
    decreases s.len(),
{
    let te = match find_from(s, 0, ' ') {
        Some(i) => if 0 <= i < s.len() {
            i
        } else {
            s.len() as int
        },
        None => s.len() as int,
    };
    match pair_token_spec(s.subrange(0, te), acc) {
        Err(e) => Err(e),
        Ok(p) => if te == s.len() {
            Ok(acc.push(p))
        } else {
            pairs_rec(s.subrange(te + 1, s.len() as int), acc.push(p))
        },
    }
}

pub open spec fn parse_pairs_spec(s: Seq<char>) -> Result<Seq<NetNodePair>, NetNodePairError> {
    pairs_rec(s, Seq::empty())
}

#[verifier::rlimit(60)]
#[verifier::spinoff_prover]
pub fn parse_net_node_pairs(s: &str) -> (r: Result<Vec<NetNodePair>, NetNodePairError>)
    ensures
        match r {
            Ok(v) => parse_pairs_spec(s@) matches Ok(ps) && ps == v@,
            Err(e) => parse_pairs_spec(s@) matches Err(e2) && e == e2,
        },
{
    let n: usize = s.unicode_len();
    let mut pairs: Vec<NetNodePair> = Vec::new();
    let mut from: usize = 0;
    proof {
        assert(s@.subrange(0, n as int) =~= s@);
    }
    loop
        invariant
            from <= n,
            n == s@.len(),
            parse_pairs_spec(s@) == pairs_rec(s@.subrange(from as int, n as int), pairs@),
        decreases n - from,
    {
        let ghost suffix = s@.subrange(from as int, n as int);
        let te: usize = match find_char_from(s, from, ' ') {
            Some(i) => i,
            None => n,
        };
        let ghost tok = s@.subrange(from as int, te as int);
        proof {
            // the token boundary on the suffix is the one found on the whole string
            crate::util::lemma_find_from_props(s@, from as int, ' ');
            if te < n {
                crate::util::lemma_find_from_is(suffix, 0, ' ', te - from);
            } else {
                crate::util::lemma_find_from_none(suffix, 0, ' ');
            }
            assert(suffix.subrange(0, te - from) =~= tok);
        }
        // parse one token over [from, te)
        let p: NetNodePair;
        let sl: usize = match find_char_from(s, from, '/') {
            Some(i) => if i < te {
                i
            } else {
                te
            },
            None => te,
        };
        proof {
            crate::util::lemma_find_from_props(s@, from as int, '/');
            if sl < te {
                crate::util::lemma_find_from_is(tok, 0, '/', sl - from);
            } else {
                crate::util::lemma_find_from_none(tok, 0, '/');
            }
        }
        if sl < te {
            // a `net/node` token
            let sl2: usize = match find_char_from(s, sl + 1, '/') {
                Some(i) => if i < te {
                    i
                } else {
                    te
                },
                None => te,
            };
            proof {
                crate::util::lemma_find_from_props(s@, sl + 1 as int, '/');
                if sl2 < te {
                    crate::util::lemma_find_from_is(tok, sl - from + 1, '/', sl2 - from);
                } else {
                    crate::util::lemma_find_from_none(tok, sl - from + 1, '/');
                }
                assert(tok.subrange(0, sl - from) =~= s@.subrange(from as int, sl as int));
                assert(tok.subrange(sl - from + 1, sl2 - from) =~= s@.subrange(
                    sl + 1 as int,
                    sl2 as int,
                ));
            }
            let net: u16 = match scan_u16_range(s, from, sl) {
                NumParse::Value(v) => v,
                NumParse::TooBig => {
                    return Err(NetNodePairError::Overflow);
                }
                NumParse::Malformed => {
                    return Err(NetNodePairError::InvalidFormat);
                }
            };
            let node: u16 = match scan_u16_range(s, sl + 1, sl2) {
                NumParse::Value(v) => v,
                NumParse::TooBig => {
                    return Err(NetNodePairError::Overflow);
                }
                NumParse::Malformed => {
                    return Err(NetNodePairError::InvalidFormat);
                }
            };
            p = (net, node);
        } else {
            // a bare `node` token inherits the current net
            if pairs.len() == 0 {
                return Err(NetNodePairError::InvalidFormat);
            }
            proof {
                assert(tok.subrange(0, tok.len() as int) =~= tok);
                assert(tok =~= s@.subrange(from as int, te as int));
            }
            let node: u16 = match scan_u16_range(s, from, te) {
                NumParse::Value(v) => v,
                NumParse::TooBig => {
                    return Err(NetNodePairError::Overflow);
                }
                NumParse::Malformed => {
                    return Err(NetNodePairError::InvalidFormat);
                }
            };
            let net: u16 = pairs[pairs.len() - 1].0;
            p = (net, node);
        }
        pairs.push(p);
        if te == n {
            return Ok(pairs);
        }
        proof {
            assert(suffix.subrange(te - from + 1, suffix.len() as int) =~= s@.subrange(
                te + 1 as int,
                n as int,
            ));
        }
        from = te + 1;
    }
}

// ---------------------------------------------------------------------------
// laws of the net/node pair grammar
// ---------------------------------------------------------------------------

/// One token of the pair grammar: a full `net/node` pair, or a bare node
/// that inherits the current net.
pub ghost enum PairTok {
    Full(u16, u16),
    Bare(u16),
}

pub open spec fn tok_node(t: PairTok) -> u16 {
    match t {
        PairTok::Full(n, d) => d,
        PairTok::Bare(d) => d,
    }
}

pub open spec fn render_tok(t: PairTok) -> Seq<char> {
    match t {
        PairTok::Full(n, d) => dec_str(n as int) + seq!['/'] + dec_str(d as int),
        PairTok::Bare(d) => dec_str(d as int),
    }
}

/// The token list written down, space-separated.
pub open spec fn render_toks(ts: Seq<PairTok>) -> Seq<char>
    decreases ts.len(),
{
    if ts.len() == 0 {
        Seq::empty()
    } else if ts.len() == 1 {
        render_tok(ts[0])
    } else {
        render_tok(ts[0]) + seq![' '] + render_toks(ts.drop_first())
    }
}

/// The net in force at token `k`: the net of the last token at or before
/// `k` that spells one, else the fallback.
pub open spec fn cur_net(ts: Seq<PairTok>, k: int, fallback: u16) -> u16
    decreases k + 1,
{
    if k < 0 || k >= ts.len() {
        fallback
    } else {
        match ts[k] {
            PairTok::Full(n, _) => n,
            PairTok::Bare(_) => cur_net(ts, k - 1, fallback),
        }
    }
}

pub open spec fn expected_pairs(ts: Seq<PairTok>, fallback: u16) -> Seq<NetNodePair> {
    Seq::new(ts.len(), |k: int| (cur_net(ts, k, fallback), tok_node(ts[k])))
}

proof fn lemma_cur_net_shift(ts: Seq<PairTok>, fb: u16, k: int)
    requires
        ts.len() >= 1,
        0 <= k < ts.len() - 1,
    ensures
        cur_net(ts.drop_first(), k, cur_net(ts, 0, fb)) == cur_net(ts, k + 1, fb),
    decreases k,
{
    let d = ts.drop_first();
    assert(d[k] == ts[k + 1]);
    match d[k] {
        PairTok::Full(n, _) => {}
        PairTok::Bare(_) => {
            assert(cur_net(d, k, cur_net(ts, 0, fb)) == cur_net(d, k - 1, cur_net(ts, 0, fb)));
            assert(cur_net(ts, k + 1, fb) == cur_net(ts, k, fb));
            if k > 0 {
                lemma_cur_net_shift(ts, fb, k - 1);
            } else {
                assert(cur_net(d, -1, cur_net(ts, 0, fb)) == cur_net(ts, 0, fb));
            }
        }
    }
}

proof fn lemma_token_parses(t: PairTok, acc: Seq<NetNodePair>)
    requires
        t is Bare ==> acc.len() > 0,
    ensures
        forall|j: int| 0 <= j < render_tok(t).len() ==> #[trigger] render_tok(t)[j] != ' ',
        pair_token_spec(render_tok(t), acc) == Ok::<NetNodePair, NetNodePairError>(
            (cur_net(seq![t], 0, if acc.len() > 0 {
                acc.last().0
            } else {
                0
            }), tok_node(t)),
        ),
{
    let tok = render_tok(t);
    match t {
        PairTok::Full(n, d) => {
            let nb = dec_str(n as int);
            let db = dec_str(d as int);
            lemma_dec_str_digits(n as int);
            lemma_dec_str_digits(d as int);
            lemma_scan_of_value(n as int);
            lemma_scan_of_value(d as int);
            let k = nb.len() as int;
            assert(forall|j: int| 0 <= j < nb.len() ==> tok[j] == nb[j]);
            assert(tok[k] == '/');
            assert(forall|j: int| 0 <= j < db.len() ==> tok[k + 1 + j] == db[j]);
            assert(forall|j: int| 0 <= j < k ==> is_digit(#[trigger] tok[j]) && tok[j] != '/');
            crate::util::lemma_find_from_is(tok, 0, '/', k);
            assert(forall|j: int|
                k + 1 <= j < tok.len() ==> is_digit(#[trigger] tok[j]) && tok[j] != '/');
            crate::util::lemma_find_from_none(tok, k + 1, '/');
            assert(tok.subrange(0, k) =~= nb);
            assert(tok.subrange(k + 1, tok.len() as int) =~= db);
            assert(forall|j: int| 0 <= j < tok.len() ==> #[trigger] tok[j] != ' ') by {
                assert(forall|j: int| 0 <= j < k ==> is_digit(#[trigger] tok[j]));
                assert(forall|j: int| k + 1 <= j < tok.len() ==> is_digit(#[trigger] tok[j]));
            }
            let one = seq![t];
            assert(one[0] == t);
            assert(cur_net(one, 0, if acc.len() > 0 {
                acc.last().0
            } else {
                0
            }) == n);
            assert(pair_token_spec(tok, acc) == Ok::<NetNodePair, NetNodePairError>(
                (n as u16, d as u16),
            ));
        }
        PairTok::Bare(d) => {
            lemma_dec_str_digits(d as int);
            lemma_scan_of_value(d as int);
            assert(forall|j: int| 0 <= j < tok.len() ==> is_digit(#[trigger] tok[j]));
            crate::util::lemma_find_from_none(tok, 0, '/');
            assert(tok.subrange(0, tok.len() as int) =~= tok);
            let one = seq![t];
            assert(one[0] == t);
            let fb0: u16 = if acc.len() > 0 {
                acc.last().0
            } else {
                0
            };
            assert(cur_net(one, -1, fb0) == fb0);
            assert(cur_net(one, 0, fb0) == fb0);
            assert(pair_token_spec(tok, acc) == Ok::<NetNodePair, NetNodePairError>(
                (acc.last().0, d as u16),
            ));
        }
    }
}

proof fn lemma_pairs_rec_render(ts: Seq<PairTok>, acc: Seq<NetNodePair>)
    requires
        ts.len() >= 1,
        ts[0] is Bare ==> acc.len() > 0,
    ensures
        pairs_rec(render_toks(ts), acc) == Ok::<Seq<NetNodePair>, NetNodePairError>(
            acc + expected_pairs(ts, if acc.len() > 0 {
                acc.last().0
            } else {
                0
            }),
        ),
    decreases ts.len(),
{
    let fb: u16 = if acc.len() > 0 {
        acc.last().0
    } else {
        0
    };
    let s = render_toks(ts);
    let tok = render_tok(ts[0]);
    lemma_token_parses(ts[0], acc);
    let p = (cur_net(seq![ts[0]], 0, fb), tok_node(ts[0]));
    let one0 = seq![ts[0]];
    assert(one0[0] == ts[0]);
    assert(cur_net(one0, -1, fb) == fb);
    assert(cur_net(ts, -1, fb) == fb);
    assert(cur_net(one0, 0, fb) == cur_net(ts, 0, fb));
    if ts.len() == 1 {
        assert(s == tok);
        crate::util::lemma_find_from_none(s, 0, ' ');
        assert(s.subrange(0, s.len() as int) =~= tok);
        assert(acc.push(p) =~= acc + expected_pairs(ts, fb));
    } else {
        let te = tok.len() as int;
        assert(forall|j: int| 0 <= j < te ==> s[j] == tok[j]);
        assert(s[te] == ' ');
        crate::util::lemma_find_from_is(s, 0, ' ', te);
        assert(s.subrange(0, te) =~= tok);
        let d = ts.drop_first();
        assert(s.subrange(te + 1, s.len() as int) =~= render_toks(d));
        lemma_pairs_rec_render(d, acc.push(p));
        let fb2 = p.0;
        assert(cur_net(d, -1, fb2) == fb2);
        assert(acc + expected_pairs(ts, fb) =~= acc.push(p) + expected_pairs(d, fb2)) by {
            assert(expected_pairs(ts, fb)[0] == p);
            assert forall|k: int| 0 <= k < d.len() implies expected_pairs(ts, fb)[k + 1]
                == expected_pairs(d, fb2)[k] by {
                lemma_cur_net_shift(ts, fb, k);
                assert(d[k] == ts[k + 1]);
            }
        }
    }
}

/// Any token list of the net/node grammar that opens with a full pair
/// parses in whole, and the net of the k-th resulting pair is the net of
/// the last token at or before it that spelled one.
pub proof fn lemma_pairs_grammar(ts: Seq<PairTok>)
    requires
        ts.len() >= 1,
        ts[0] is Full,
    ensures
        parse_pairs_spec(render_toks(ts)) == Ok::<Seq<NetNodePair>, NetNodePairError>(
            expected_pairs(ts, 0),
        ),
        forall|k: int|
            0 <= k < ts.len() ==> #[trigger] expected_pairs(ts, 0)[k] == (cur_net(ts, k, 0),
            tok_node(ts[k])),
{
    lemma_pairs_rec_render(ts, Seq::empty());
    assert(Seq::<NetNodePair>::empty() + expected_pairs(ts, 0) =~= expected_pairs(ts, 0));
}

// ---------------------------------------------------------------------------
// REPLYTO values
// ---------------------------------------------------------------------------

/// The `address [display name]` form of a REPLYTO kludge, split at the last
/// space; with no space the whole value is the address and the name is empty.
pub open spec fn parse_replyto_spec(s: Seq<char>) -> Result<
    (AddressV, Seq<char>),
    ParseAddressError,
> {
    match rfind_from(s, s.len() - 1, ' ') {
        None => match parse_address_spec(s) {
            Ok(a) => Ok((a, Seq::empty())),
            Err(e) => Err(e),
        },
        Some(sp) => match parse_address_spec(s.subrange(0, sp)) {
            Ok(a) => Ok((a, s.subrange(sp + 1, s.len() as int))),
            Err(e) => Err(e),
        },
    }
}

pub fn parse_replyto<'a>(s: &'a str) -> (r: Result<(Address, &'a str), ParseAddressError>)
    ensures
        match r {
            Ok(p) => parse_replyto_spec(s@) matches Ok(q) && p.0@ == q.0 && p.1@ == q.1,
            Err(e) => parse_replyto_spec(s@) matches Err(e2) && e == e2,
        },
{
    let n: usize = s.unicode_len();
    match rfind_char(s, ' ') {
        None => {
            proof {
                assert(s@.subrange(0, n as int) =~= s@);
            }
            match Address::from_str(s) {
                Ok(a) => Ok((a, s.substring_char(n, n))),
                Err(e) => Err(e),
            }
        }
        Some(sp) => {
            let left = s.substring_char(0, sp);
            match Address::from_str(left) {
                Ok(a) => Ok((a, s.substring_char(sp + 1, n))),
                Err(e) => Err(e),
            }
        }
    }
}

} // verus!
