//! The normalized message model and the body synthesizer: tokenizing a
//! message text, classifying kludges, reconciling addresses.

use vstd::prelude::*;

verus! {

use crate::addr::{Address, AddressV, NetNodePair};
use crate::dt::DateTime;
use crate::util::{has_prefix, starts_with, str_eq, find_from, find2_from, rfind2_from, find_char_from, find_char2_from, rfind_char2_from, trim_ws, trim_ws_str, scan_u16, NumParse};
use crate::addr::{AddressKind, AddressKindV, MessageId, parse_msgid_spec, parse_pairs_spec, parse_replyto_spec, parse_address_spec, parse_net_node_pairs, parse_replyto};
use vstd::string::{StrSliceExecFns, StringExecFns};
use vstd::utf8::{valid_utf8, decode_utf8};
use crate::codec::{decode_ibm866, utf8_to_string, ibm866_of, DecodeError};
use crate::dt::{parse_ftn_datetime, parse_ftn_datetime_spec};
use crate::pkt::{PktMessageV, PackageV};

pub open spec fn view_opt_str(o: Option<String>) -> Option<Seq<char>> {
    match o {
        Some(s) => Some(s@),
        None => None,
    }
}

pub open spec fn view_opt_strs(o: Option<Vec<String>>) -> Option<Seq<Seq<char>>> {
    match o {
        Some(v) => Some(v.deep_view()),
        None => None,
    }
}

pub open spec fn view_opt_pairs(o: Option<Vec<NetNodePair>>) -> Option<Seq<NetNodePair>> {
    match o {
        Some(v) => Some(v@),
        None => None,
    }
}

/// A message endpoint: an address, a display name, and an optional foreign
/// gateway address.
#[derive(Debug)]
pub struct User {
    pub addr: Address,
    pub name: String,
    pub ext_addr: Option<String>,
}

pub ghost struct UserV {
    pub addr: AddressV,
    pub name: Seq<char>,
    pub ext_addr: Option<Seq<char>>,
}

impl View for User {
    type V = UserV;

    open spec fn view(&self) -> UserV {
        UserV { addr: self.addr@, name: self.name@, ext_addr: view_opt_str(self.ext_addr) }
    }
}

/// The conference a message belongs to.
#[derive(Debug, PartialEq, Eq)]
pub enum Area {
    Netmail,
    Echomail(String),
}

pub ghost enum AreaV {
    Netmail,
    Echomail(Seq<char>),
}

impl View for Area {
    type V = AreaV;

    open spec fn view(&self) -> AreaV {
        match self {
            Area::Netmail => AreaV::Netmail,
            Area::Echomail(name) => AreaV::Echomail(name@),
        }
    }
}

/// The structured view of a message's control lines.
#[derive(Debug)]
pub struct ControlLines {
    pub pid: Option<String>,
    pub tid: Option<String>,
    pub tzutc: Option<String>,
    pub seen_by: Option<Vec<NetNodePair>>,
    pub path: Option<Vec<NetNodePair>>,
    pub custom: Option<Vec<String>>,
}

pub ghost struct ControlLinesV {
    pub pid: Option<Seq<char>>,
    pub tid: Option<Seq<char>>,
    pub tzutc: Option<Seq<char>>,
    pub seen_by: Option<Seq<NetNodePair>>,
    pub path: Option<Seq<NetNodePair>>,
    pub custom: Option<Seq<Seq<char>>>,
}

impl View for ControlLines {
    type V = ControlLinesV;

    open spec fn view(&self) -> ControlLinesV {
        ControlLinesV {
            pid: view_opt_str(self.pid),
            tid: view_opt_str(self.tid),
            tzutc: view_opt_str(self.tzutc),
            seen_by: view_opt_pairs(self.seen_by),
            path: view_opt_pairs(self.path),
            custom: view_opt_strs(self.custom),
        }
    }
}

pub open spec fn empty_controls() -> ControlLinesV {
    ControlLinesV { pid: None, tid: None, tzutc: None, seen_by: None, path: None, custom: None }
}

impl ControlLines {
    pub fn empty() -> (r: Self)
        ensures
            r@ == empty_controls(),
    {
        Self { pid: None, tid: None, tzutc: None, seen_by: None, path: None, custom: None }
    }
}

/// A normalized message, ready for the message base.
#[derive(Debug)]
pub struct Message {
    pub area: Area,
    pub posted: DateTime,
    pub from: User,
    pub to: User,
    pub flags: u16,
    pub msgid_serial: u32,
    pub reply_serial: Option<u32>,
    pub msgid_addr: Option<String>,
    pub reply_addr: Option<String>,
    pub subj: String,
    pub body: String,
    pub tear_line: String,
    pub origin: String,
    pub kludges: ControlLines,
}

pub ghost struct MessageV {
    pub area: AreaV,
    pub posted: DateTime,
    pub from: UserV,
    pub to: UserV,
    pub flags: u16,
    pub msgid_serial: u32,
    pub reply_serial: Option<u32>,
    pub msgid_addr: Option<Seq<char>>,
    pub reply_addr: Option<Seq<char>>,
    pub subj: Seq<char>,
    pub body: Seq<char>,
    pub tear_line: Seq<char>,
    pub origin: Seq<char>,
    pub kludges: ControlLinesV,
}

impl View for Message {
    type V = MessageV;

    open spec fn view(&self) -> MessageV {
        MessageV {
            area: self.area@,
            posted: self.posted,
            from: self.from@,
            to: self.to@,
            flags: self.flags,
            msgid_serial: self.msgid_serial,
            reply_serial: self.reply_serial,
            msgid_addr: view_opt_str(self.msgid_addr),
            reply_addr: view_opt_str(self.reply_addr),
            subj: self.subj@,
            body: self.body@,
            tear_line: self.tear_line@,
            origin: self.origin@,
            kludges: self.kludges@,
        }
    }
}

// ---------------------------------------------------------------------------
// tokenizing a message body
// ---------------------------------------------------------------------------

/// A classified piece of the message text. The number on a body token is
/// how many characters its keyword prefix takes.
#[derive(Clone, Copy, Debug, PartialEq, Eq, Structural)]
pub enum Token {
    Area,
    MsgId,
    Reply,
    Pid,
    Tid,
    TzUtc,
    TearLine(usize),
    Origin(usize),
    SeenBy(usize),
    Path,
    Kludge,
    Paragraph,
}

pub open spec fn toks_view(v: Seq<(Token, String)>) -> Seq<(Token, Seq<char>)> {
    Seq::new(v.len(), |i: int| (v[i].0, v[i].1@))
}

pub open spec fn soh() -> char {
    '\u{1}'
}

/// The body classification of one paragraph, by its leading text.
pub open spec fn classify_par(par: Seq<char>) -> Token {
    if has_prefix(par, "--- "@) {
        Token::TearLine(4)
    } else if par == "---"@ {
        Token::TearLine(3)
    } else if has_prefix(par, " * Origin: "@) {
        Token::Origin(11)
    } else if has_prefix(par, "SEEN-BY: "@) {
        Token::SeenBy(9)
    } else {
        Token::Paragraph
    }
}

/// The kludge classification of a piece that followed a SOH byte, with the
/// length of the recognized keyword; an unknown kludge keeps its whole
/// text.
pub open spec fn classify_kludge(sub: Seq<char>) -> (Token, int) {
    if has_prefix(sub, "MSGID: "@) {
        (Token::MsgId, 7int)
    } else if has_prefix(sub, "REPLY: "@) {
        (Token::Reply, 7int)
    } else if has_prefix(sub, "PID: "@) {
        (Token::Pid, 5int)
    } else if has_prefix(sub, "TID: "@) {
        (Token::Tid, 5int)
    } else if has_prefix(sub, "TZUTC: "@) {
        (Token::TzUtc, 7int)
    } else if has_prefix(sub, "PATH: "@) {
        (Token::Path, 6int)
    } else {
        (Token::Kludge, 0int)
    }
}

pub open spec fn is_empty_par(tp: (Token, Seq<char>)) -> bool {
    tp.0 == Token::Paragraph && tp.1.len() == 0
}

/// The kludge pieces of one paragraph, from `from` (just past a SOH byte)
/// on; an empty paragraph token left right before a kludge is dropped.
pub open spec fn kludge_tokens(par: Seq<char>, from: int, acc: Seq<(Token, Seq<char>)>) -> Seq<
    (Token, Seq<char>),
>
    decreases par.len() - from,
{
    if from < 0 || from > par.len() {
        acc
    } else {
        let e = match find_from(par, from, soh()) {
            Some(k) => if from <= k < par.len() {
                k
            } else {
                par.len() as int
            },
            None => par.len() as int,
        };
        let sub = par.subrange(from, e);
        let tk = classify_kludge(sub);
        let skip = if 0 <= tk.1 <= sub.len() {
            tk.1
        } else {
            0int
        };
        let acc1 = if acc.len() > 0 && is_empty_par(acc.last()) {
            acc.drop_last()
        } else {
            acc
        };
        let acc2 = acc1.push((tk.0, sub.subrange(skip, sub.len() as int)));
        if e == par.len() {
            acc2
        } else {
            kludge_tokens(par, e + 1, acc2)
        }
    }
}

/// All tokens of one paragraph: the leading piece classified by the whole
/// paragraph's prefix, then its kludge pieces.
pub open spec fn par_tokens(par: Seq<char>, acc: Seq<(Token, Seq<char>)>) -> Seq<
    (Token, Seq<char>),
> {
    let e = match find_from(par, 0, soh()) {
        Some(k) => if 0 <= k < par.len() {
            k
        } else {
            par.len() as int
        },
        None => par.len() as int,
    };
    let acc1 = acc.push((classify_par(par), par.subrange(0, e)));
    if e == par.len() {
        acc1
    } else {
        kludge_tokens(par, e + 1, acc1)
    }
}

/// First tokenizing pass: the text split at line ends, each paragraph
/// split at SOH bytes and classified.
pub open spec fn pass1(text: Seq<char>, from: int, acc: Seq<(Token, Seq<char>)>) -> Seq<
    (Token, Seq<char>),
>
    decreases text.len() - from,
{
    if from < 0 || from > text.len() {
        acc
    } else {
        let e = match find2_from(text, from, '\n', '\r') {
            Some(k) => if from <= k < text.len() {
                k
            } else {
                text.len() as int
            },
            None => text.len() as int,
        };
        let acc1 = par_tokens(text.subrange(from, e), acc);
        if e == text.len() {
            acc1
        } else {
            pass1(text, e + 1, acc1)
        }
    }
}

/// The first pass with the trailing empty paragraph removed.
pub open spec fn pass1_clean(text: Seq<char>) -> Seq<(Token, Seq<char>)> {
    let ts = pass1(text, 0, Seq::empty());
    if ts.len() > 0 && is_empty_par(ts.last()) {
        ts.drop_last()
    } else {
        ts
    }
}

/// The reverse demotion pass: the last tear line wins, the last origin
/// wins, and seen-by lines above the final origin are body text. A demoted
/// token becomes a paragraph with its text intact.
pub open spec fn demote(ts: Seq<(Token, Seq<char>)>, has_tear: bool, has_origin: bool) -> Seq<
    (Token, Seq<char>),
>
    decreases ts.len(),
{
    if ts.len() == 0 {
        ts
    } else {
        let tp = ts.last();
        let step = match tp.0 {
            Token::TearLine(k) => if has_tear {
                (Token::Paragraph, has_tear, has_origin)
            } else {
                (tp.0, true, has_origin)
            },
            Token::Origin(k) => if has_origin {
                (Token::Paragraph, has_tear, has_origin)
            } else {
                (tp.0, has_tear, true)
            },
            Token::SeenBy(k) => if has_origin {
                (Token::Paragraph, has_tear, has_origin)
            } else {
                (tp.0, has_tear, has_origin)
            },
            _ => (tp.0, has_tear, has_origin),
        };
        demote(ts.drop_last(), step.1, step.2).push((step.0, tp.1))
    }
}

/// The first nonempty paragraph, if it opens with `AREA:`, becomes the
/// area token, its value the rest of the line.
pub open spec fn apply_area(ts: Seq<(Token, Seq<char>)>, i: int) -> Seq<(Token, Seq<char>)>
    decreases ts.len() - i,
{
    if i < 0 || i >= ts.len() {
        ts
    } else {
        let tp = ts[i];
        if tp.0 == Token::Paragraph && tp.1.len() > 0 {
            if has_prefix(tp.1, "AREA:"@) {
                ts.update(i, (Token::Area, tp.1.subrange(5, tp.1.len() as int)))
            } else {
                ts
            }
        } else {
            apply_area(ts, i + 1)
        }
    }
}

/// What tokenizing a message text yields.
pub open spec fn tokenize_spec(text: Seq<char>) -> Seq<(Token, Seq<char>)> {
    apply_area(demote(pass1_clean(text), false, false), 0)
}

// ---------------------------------------------------------------------------
// laws of the tokenizer
// ---------------------------------------------------------------------------

pub open spec fn no_area(ts: Seq<(Token, Seq<char>)>) -> bool {
    forall|i: int| 0 <= i < ts.len() ==> !((#[trigger] ts[i]).0 is Area)
}

proof fn lemma_kludge_no_area(par: Seq<char>, from: int, acc: Seq<(Token, Seq<char>)>)
    requires
        no_area(acc),
    ensures
        no_area(kludge_tokens(par, from, acc)),
    decreases par.len() - from,
{
    if !(from < 0 || from > par.len()) {
        let e = match find_from(par, from, soh()) {
            Some(k) => if from <= k < par.len() {
                k
            } else {
                par.len() as int
            },
            None => par.len() as int,
        };
        let sub = par.subrange(from, e);
        assert(!(classify_kludge(sub).0 is Area));
        let acc1 = if acc.len() > 0 && is_empty_par(acc.last()) {
            acc.drop_last()
        } else {
            acc
        };
        assert(no_area(acc1));
        let tk = classify_kludge(sub);
        let skip = if 0 <= tk.1 <= sub.len() {
            tk.1
        } else {
            0int
        };
        let acc2 = acc1.push((tk.0, sub.subrange(skip, sub.len() as int)));
        assert(no_area(acc2));
        if e != par.len() {
            lemma_kludge_no_area(par, e + 1, acc2);
        }
    }
}

proof fn lemma_par_no_area(par: Seq<char>, acc: Seq<(Token, Seq<char>)>)
    requires
        no_area(acc),
    ensures
        no_area(par_tokens(par, acc)),
{
    let e = match find_from(par, 0, soh()) {
        Some(k) => if 0 <= k < par.len() {
            k
        } else {
            par.len() as int
        },
        None => par.len() as int,
    };
    assert(!(classify_par(par) is Area));
    let acc1 = acc.push((classify_par(par), par.subrange(0, e)));
    assert(no_area(acc1));
    if e != par.len() {
        lemma_kludge_no_area(par, e + 1, acc1);
    }
}

proof fn lemma_pass1_no_area(text: Seq<char>, from: int, acc: Seq<(Token, Seq<char>)>)
    requires
        no_area(acc),
    ensures
        no_area(pass1(text, from, acc)),
    decreases text.len() - from,
{
    if !(from < 0 || from > text.len()) {
        let e = match find2_from(text, from, '\n', '\r') {
            Some(k) => if from <= k < text.len() {
                k
            } else {
                text.len() as int
            },
            None => text.len() as int,
        };
        lemma_par_no_area(text.subrange(from, e), acc);
        if e != text.len() {
            lemma_pass1_no_area(text, e + 1, par_tokens(text.subrange(from, e), acc));
        }
    }
}

/// Demotion changes only tags, never text: every token keeps its payload,
/// and a changed tag became a paragraph. No tear line or origin survives
/// past the flags, no two of either kind survive at all, and demotion
/// introduces no area token.
pub proof fn lemma_demote_props(ts: Seq<(Token, Seq<char>)>, ht: bool, ho: bool)
    ensures
        ({
            let r = demote(ts, ht, ho);
            &&& r.len() == ts.len()
            &&& forall|i: int|
                0 <= i < ts.len() ==> (#[trigger] r[i]).1 == ts[i].1 && (r[i].0 == ts[i].0
                    || r[i].0 == Token::Paragraph)
            &&& forall|i: int, j: int|
                0 <= i < j < ts.len() ==> !((#[trigger] r[i]).0 is TearLine && (#[trigger] r[j]).0
                    is TearLine)
            &&& forall|i: int, j: int|
                0 <= i < j < ts.len() ==> !((#[trigger] r[i]).0 is Origin && (#[trigger] r[j]).0
                    is Origin)
            &&& ht ==> forall|i: int| 0 <= i < ts.len() ==> !((#[trigger] r[i]).0 is TearLine)
            &&& ho ==> forall|i: int| 0 <= i < ts.len() ==> !((#[trigger] r[i]).0 is Origin)
            &&& forall|i: int|
                0 <= i < ts.len() ==> !((#[trigger] r[i]).0 is Area) || ts[i].0 is Area
        }),
    decreases ts.len(),
{
    if ts.len() > 0 {
        let tp = ts.last();
        let step = match tp.0 {
            Token::TearLine(k) => if ht {
                (Token::Paragraph, ht, ho)
            } else {
                (tp.0, true, ho)
            },
            Token::Origin(k) => if ho {
                (Token::Paragraph, ht, ho)
            } else {
                (tp.0, ht, true)
            },
            Token::SeenBy(k) => if ho {
                (Token::Paragraph, ht, ho)
            } else {
                (tp.0, ht, ho)
            },
            _ => (tp.0, ht, ho),
        };
        lemma_demote_props(ts.drop_last(), step.1, step.2);
        let r = demote(ts, ht, ho);
        let rp = demote(ts.drop_last(), step.1, step.2);
        assert(r == rp.push((step.0, tp.1)));
        assert(r[ts.len() - 1].0 == step.0);
        assert(forall|i: int| 0 <= i < ts.len() - 1 ==> #[trigger] r[i] == rp[i]);
        if step.0 is TearLine {
            assert(step.1);
            assert(forall|i: int| 0 <= i < ts.len() - 1 ==> !((#[trigger] r[i]).0 is TearLine));
        }
        if step.0 is Origin {
            assert(step.2);
            assert(forall|i: int| 0 <= i < ts.len() - 1 ==> !((#[trigger] r[i]).0 is Origin));
        }
        if ht {
            assert(step.1);
        }
        if ho {
            assert(step.2);
        }
    }
}

proof fn lemma_apply_area_unique(ts: Seq<(Token, Seq<char>)>, i: int)
    requires
        no_area(ts),
    ensures
        ({
            let r = apply_area(ts, i);
            &&& r.len() == ts.len()
            &&& forall|a: int, b: int|
                0 <= a < b < ts.len() ==> !((#[trigger] r[a]).0 is Area && (#[trigger] r[b]).0
                    is Area)
        }),
    decreases ts.len() - i,
{
    if !(i < 0 || i >= ts.len()) {
        let tp = ts[i];
        if tp.0 == Token::Paragraph && tp.1.len() > 0 {
        } else {
            lemma_apply_area_unique(ts, i + 1);
        }
    }
}

/// The tokenizer yields at most one area token, at most one origin and at
/// most one tear line for any message text.
pub proof fn lemma_tokenize_unique(text: Seq<char>)
    ensures
        ({
            let ts = tokenize_spec(text);
            &&& forall|i: int, j: int|
                0 <= i < j < ts.len() ==> !((#[trigger] ts[i]).0 is TearLine && (#[trigger] ts[j]).0
                    is TearLine)
            &&& forall|i: int, j: int|
                0 <= i < j < ts.len() ==> !((#[trigger] ts[i]).0 is Origin && (#[trigger] ts[j]).0
                    is Origin)
            &&& forall|i: int, j: int|
                0 <= i < j < ts.len() ==> !((#[trigger] ts[i]).0 is Area && (#[trigger] ts[j]).0
                    is Area)
        }),
{
    let p1 = pass1(text, 0, Seq::empty());
    lemma_pass1_no_area(text, 0, Seq::empty());
    let pc = pass1_clean(text);
    assert(no_area(pc));
    let d = demote(pc, false, false);
    lemma_demote_props(pc, false, false);
    assert(no_area(d));
    lemma_apply_area_unique(d, 0);
    let ts = tokenize_spec(text);
    assert(ts == apply_area(d, 0));
    // the area pass touches at most one token and keeps every tag it does
    // not rewrite, so the tear and origin bounds carry over
    lemma_apply_area_keeps(d, 0);
}

proof fn lemma_apply_area_keeps(ts: Seq<(Token, Seq<char>)>, i: int)
    ensures
        ({
            let r = apply_area(ts, i);
            &&& r.len() == ts.len()
            &&& forall|a: int|
                0 <= a < ts.len() ==> (#[trigger] r[a]).0 == ts[a].0 || r[a].0 == Token::Area
        }),
    decreases ts.len() - i,
{
    if !(i < 0 || i >= ts.len()) {
        let tp = ts[i];
        if tp.0 == Token::Paragraph && tp.1.len() > 0 {
        } else {
            lemma_apply_area_keeps(ts, i + 1);
        }
    }
}

fn classify_par_exec(par: &str) -> (r: Token)
    ensures
        r == classify_par(par@),
{
    if starts_with(par, "--- ") {
        Token::TearLine(4)
    } else if str_eq(par, "---") {
        Token::TearLine(3)
    } else if starts_with(par, " * Origin: ") {
        Token::Origin(11)
    } else if starts_with(par, "SEEN-BY: ") {
        Token::SeenBy(9)
    } else {
        Token::Paragraph
    }
}

fn classify_kludge_exec(sub: &str) -> (r: (Token, usize))
    ensures
        (r.0, r.1 as int) == classify_kludge(sub@),
        r.1 <= sub@.len(),
{
    proof {
        reveal_strlit("MSGID: ");
        reveal_strlit("REPLY: ");
        reveal_strlit("PID: ");
        reveal_strlit("TID: ");
        reveal_strlit("TZUTC: ");
        reveal_strlit("PATH: ");
    }
    if starts_with(sub, "MSGID: ") {
        (Token::MsgId, 7)
    } else if starts_with(sub, "REPLY: ") {
        (Token::Reply, 7)
    } else if starts_with(sub, "PID: ") {
        (Token::Pid, 5)
    } else if starts_with(sub, "TID: ") {
        (Token::Tid, 5)
    } else if starts_with(sub, "TZUTC: ") {
        (Token::TzUtc, 7)
    } else if starts_with(sub, "PATH: ") {
        (Token::Path, 6)
    } else {
        (Token::Kludge, 0)
    }
}

/// Drop a trailing empty paragraph token, if any.
fn pop_empty_par(tokens: &mut Vec<(Token, String)>)
    ensures
        toks_view(final(tokens)@) == ({
            let ts = toks_view(old(tokens)@);
            if ts.len() > 0 && is_empty_par(ts.last()) {
                ts.drop_last()
            } else {
                ts
            }
        }),
{
    let n = tokens.len();
    if n > 0 {
        let is_par = matches!(tokens[n - 1].0, Token::Paragraph);
        if is_par && tokens[n - 1].1.as_str().is_empty() {
            tokens.pop();
            proof {
                assert(toks_view(tokens@) =~= toks_view(old(tokens)@).drop_last());
            }
            return ;
        }
    }
    proof {
        assert(toks_view(tokens@) =~= toks_view(old(tokens)@));
    }
}

/// Split a message text (already decoded, `\r` or `\n` ends a line) into
/// classified tokens: one body token per paragraph, one token per kludge,
/// at most one area, one tear line and one origin.
pub fn tokenize_msg_body(text: &str) -> (r: Vec<(Token, String)>)
    ensures
        toks_view(r@) == tokenize_spec(text@),
{
    let n: usize = text.unicode_len();
    let mut tokens: Vec<(Token, String)> = Vec::new();
    proof {
        assert(toks_view(tokens@) =~= Seq::<(Token, Seq<char>)>::empty());
    }
    let mut from: usize = 0;
    let mut done: bool = false;
    while !done
        invariant
            n == text@.len(),
            from <= n,
            !done ==> pass1(text@, 0, Seq::empty()) == pass1(
                text@,
                from as int,
                toks_view(tokens@),
            ),
            done ==> toks_view(tokens@) == pass1(text@, 0, Seq::empty()),
        decreases n - from + (if done {
            0int
        } else {
            1int
        }),
    {
        let e: usize = match find_char2_from(text, from, '\n', '\r') {
            Some(k) => k,
            None => n,
        };
        let par = text.substring_char(from, e);
        let ghost parv = text@.subrange(from as int, e as int);
        let ghost acc0 = toks_view(tokens@);
        // the leading piece, classified by the paragraph's own prefix
        let tok = classify_par_exec(par);
        let pn: usize = par.unicode_len();
        let he: usize = match find_char_from(par, 0, '\u{1}') {
            Some(k) => k,
            None => pn,
        };
        let head = par.substring_char(0, he).to_owned();
        tokens.push((tok, head));
        proof {
            assert(toks_view(tokens@) =~= acc0.push((classify_par(parv), parv.subrange(0, he as int))));
        }
        // the kludge pieces after each SOH byte
        if he < pn {
            let mut from2: usize = he + 1;
            let mut done2: bool = false;
            while !done2
                invariant
                    par@ == parv,
                    pn == parv.len(),
                    from2 <= pn,
                    !done2 ==> par_tokens(parv, acc0) == kludge_tokens(
                        parv,
                        from2 as int,
                        toks_view(tokens@),
                    ),
                    done2 ==> toks_view(tokens@) == par_tokens(parv, acc0),
                decreases pn - from2 + (if done2 {
                    0int
                } else {
                    1int
                }),
            {
                let e2: usize = match find_char_from(par, from2, '\u{1}') {
                    Some(k) => k,
                    None => pn,
                };
                let sub = par.substring_char(from2, e2);
                let ghost acck = toks_view(tokens@);
                let tk = classify_kludge_exec(sub);
                pop_empty_par(&mut tokens);
                let piece = sub.substring_char(tk.1, sub.unicode_len()).to_owned();
                tokens.push((tk.0, piece));
                proof {
                    let subv = parv.subrange(from2 as int, e2 as int);
                    assert(sub@ == subv);
                    let acc1 = if acck.len() > 0 && is_empty_par(acck.last()) {
                        acck.drop_last()
                    } else {
                        acck
                    };
                    assert(toks_view(tokens@) =~= acc1.push(
                        (tk.0, subv.subrange(tk.1 as int, subv.len() as int)),
                    ));
                }
                if e2 == pn {
                    done2 = true;
                } else {
                    from2 = e2 + 1;
                }
            }
        } else {
            proof {
                assert(par_tokens(parv, acc0) == toks_view(tokens@));
            }
        }
        if e == n {
            done = true;
        } else {
            from = e + 1;
        }
    }
    // drop the trailing empty paragraph, then demote, then find the area
    pop_empty_par(&mut tokens);
    proof {
        assert(toks_view(tokens@) == pass1_clean(text@));
    }
    demote_tokens(&mut tokens);
    apply_area_exec(&mut tokens);
    tokens
}

/// The reverse pass: walk the tokens from the end, demoting all but the
/// last tear line, all but the last origin, and every seen-by above the
/// final origin.
fn demote_tokens(tokens: &mut Vec<(Token, String)>)
    ensures
        toks_view(final(tokens)@) == demote(toks_view(old(tokens)@), false, false),
{
    let ghost orig = toks_view(old(tokens)@);
    let mut i: usize = tokens.len();
    let mut has_tear: bool = false;
    let mut has_origin: bool = false;
    proof {
        assert(orig.subrange(0, i as int) =~= orig);
        assert(toks_view(tokens@).subrange(i as int, toks_view(tokens@).len() as int)
            =~= Seq::<(Token, Seq<char>)>::empty());
    }
    while i > 0
        invariant
            i <= tokens@.len(),
            tokens@.len() == orig.len(),
            forall|j: int| 0 <= j < i ==> toks_view(tokens@)[j] == orig[j],
            demote(orig, false, false) == demote(orig.subrange(0, i as int), has_tear, has_origin)
                + toks_view(tokens@).subrange(i as int, orig.len() as int),
        decreases i,
    {
        let ghost pre = orig.subrange(0, i as int);
        let ghost cur = toks_view(tokens@);
        proof {
            assert(pre.last() == orig[i - 1]);
            assert(pre.drop_last() =~= orig.subrange(0, i - 1));
        }
        let t = tokens[i - 1].0;
        let demoted: bool = match t {
            Token::TearLine(_) => if has_tear {
                true
            } else {
                has_tear = true;
                false
            },
            Token::Origin(_) => if has_origin {
                true
            } else {
                has_origin = true;
                false
            },
            Token::SeenBy(_) => has_origin,
            _ => false,
        };
        if demoted {
            let s = tokens[i - 1].1.clone();
            tokens[i - 1] = (Token::Paragraph, s);
        }
        proof {
            let now = toks_view(tokens@);
            assert(now =~= cur.update(i - 1, (if demoted {
                Token::Paragraph
            } else {
                t
            }, orig[i - 1].1)));
            assert(demote(orig, false, false) =~= demote(
                orig.subrange(0, i - 1),
                has_tear,
                has_origin,
            ) + now.subrange(i - 1, orig.len() as int));
        }
        i = i - 1;
    }
    proof {
        assert(orig.subrange(0, 0) =~= Seq::<(Token, Seq<char>)>::empty());
        assert(demote(Seq::<(Token, Seq<char>)>::empty(), has_tear, has_origin)
            =~= Seq::<(Token, Seq<char>)>::empty());
        assert(toks_view(tokens@) =~= toks_view(tokens@).subrange(0, orig.len() as int));
        assert(toks_view(tokens@) == demote(orig, false, false));
    }
}

/// Reclassify the first nonempty paragraph as the area line when it opens
/// with `AREA:`.
fn apply_area_exec(tokens: &mut Vec<(Token, String)>)
    ensures
        toks_view(final(tokens)@) == apply_area(toks_view(old(tokens)@), 0),
{
    let ghost orig = toks_view(old(tokens)@);
    let mut i: usize = 0;
    while i < tokens.len()
        invariant
            i <= tokens@.len(),
            orig == toks_view(old(tokens)@),
            toks_view(tokens@) == orig,
            apply_area(orig, 0) == apply_area(orig, i as int),
        decreases tokens@.len() - i,
    {
        let is_par = matches!(tokens[i].0, Token::Paragraph);
        if is_par && !tokens[i].1.as_str().is_empty() {
            proof {
                reveal_strlit("AREA:");
            }
            if starts_with(tokens[i].1.as_str(), "AREA:") {
                let s = tokens[i].1.as_str();
                let rest = s.substring_char(5, s.unicode_len()).to_owned();
                let ghost pay = orig[i as int].1;
                tokens[i] = (Token::Area, rest);
                proof {
                    assert(toks_view(tokens@) =~= orig.update(
                        i as int,
                        (Token::Area, pay.subrange(5, pay.len() as int)),
                    ));
                    assert(apply_area(orig, i as int) == orig.update(
                        i as int,
                        (Token::Area, pay.subrange(5, pay.len() as int)),
                    ));
                }
            } else {
                proof {
                    assert(!has_prefix(orig[i as int].1, "AREA:"@));
                    assert(apply_area(orig, i as int) == orig);
                }
            }
            return ;
        }
        proof {
            assert(orig[i as int].0 != Token::Paragraph || orig[i as int].1.len() == 0);
        }
        i = i + 1;
    }
    proof {
        assert(apply_area(orig, i as int) == orig);
    }
}

// ---------------------------------------------------------------------------
// parsing the tokens into a message
// ---------------------------------------------------------------------------

pub open spec fn view_opt_addr(o: Option<Address>) -> Option<AddressV> {
    match o {
        Some(a) => Some(a@),
        None => None,
    }
}

/// The running state of the synthesizer: the message under construction,
/// the sender candidates gathered from MSGID and REPLYTO kludges, and the
/// addressee candidate from REPLY.
pub ghost struct SynthState {
    pub m: MessageV,
    pub nf_msgid: Option<AddressV>,
    pub nf_replyto: Option<AddressV>,
    pub nt: Option<AddressV>,
}

pub open spec fn empty_addr() -> AddressV {
    AddressV { zone: 0, net: 0, node: 0, point: 0, domain: None }
}

pub open spec fn clamp_skip(k: int, len: int) -> int {
    if 0 <= k <= len {
        k
    } else {
        len
    }
}

/// One token's effect on the synthesizer state.
pub open spec fn apply_token(st: SynthState, tp: (Token, Seq<char>)) -> SynthState {
    let m = st.m;
    let s = tp.1;
    match tp.0 {
        Token::Area => SynthState {
            m: MessageV { area: AreaV::Echomail(trim_ws(s)), ..m },
            ..st
        },
        Token::MsgId => match parse_msgid_spec(trim_ws(s)) {
            Ok(id) => match id.addr {
                AddressKindV::Native(a) => SynthState {
                    m: MessageV { msgid_serial: id.serial, ..m },
                    nf_msgid: Some(a),
                    ..st
                },
                AddressKindV::External(x) => SynthState {
                    m: MessageV { msgid_serial: id.serial, msgid_addr: Some(x), ..m },
                    ..st
                },
            },
            Err(_) => st,
        },
        Token::Reply => match parse_msgid_spec(trim_ws(s)) {
            Ok(id) => match id.addr {
                AddressKindV::Native(a) => SynthState {
                    m: MessageV { reply_serial: Some(id.serial), ..m },
                    nt: Some(a),
                    ..st
                },
                AddressKindV::External(x) => SynthState {
                    m: MessageV { reply_serial: Some(id.serial), reply_addr: Some(x), ..m },
                    ..st
                },
            },
            Err(_) => st,
        },
        Token::Pid => SynthState {
            m: MessageV { kludges: ControlLinesV { pid: Some(s), ..m.kludges }, ..m },
            ..st
        },
        Token::Tid => SynthState {
            m: MessageV { kludges: ControlLinesV { tid: Some(s), ..m.kludges }, ..m },
            ..st
        },
        Token::TzUtc => SynthState {
            m: MessageV { kludges: ControlLinesV { tzutc: Some(s), ..m.kludges }, ..m },
            ..st
        },
        Token::TearLine(k) => SynthState {
            m: MessageV {
                tear_line: m.tear_line + s.subrange(clamp_skip(k as int, s.len() as int), s.len() as int),
                ..m
            },
            ..st
        },
        Token::Origin(k) => SynthState {
            m: MessageV {
                origin: m.origin + s.subrange(clamp_skip(k as int, s.len() as int), s.len() as int),
                ..m
            },
            ..st
        },
        Token::SeenBy(k) => {
            let rest = trim_ws(s.subrange(clamp_skip(k as int, s.len() as int), s.len() as int));
            match parse_pairs_spec(rest) {
                Ok(v) => {
                    let base = match m.kludges.seen_by {
                        Some(sb) => sb,
                        None => Seq::empty(),
                    };
                    SynthState {
                        m: MessageV {
                            kludges: ControlLinesV { seen_by: Some(base + v), ..m.kludges },
                            ..m
                        },
                        ..st
                    }
                }
                Err(_) => st,
            }
        },
        Token::Path => match parse_pairs_spec(trim_ws(s)) {
            Ok(v) => {
                let base = match m.kludges.path {
                    Some(p) => p,
                    None => Seq::empty(),
                };
                SynthState {
                    m: MessageV {
                        kludges: ControlLinesV { path: Some(base + v), ..m.kludges },
                        ..m
                    },
                    ..st
                }
            }
            Err(_) => st,
        },
        Token::Kludge => if has_prefix(s, "REPLYADDR: "@) {
            SynthState {
                m: MessageV {
                    from: UserV { ext_addr: Some(s.subrange(11, s.len() as int)), ..m.from },
                    ..m
                },
                ..st
            }
        } else if has_prefix(s, "REPLYADDR "@) {
            SynthState {
                m: MessageV {
                    from: UserV { ext_addr: Some(s.subrange(10, s.len() as int)), ..m.from },
                    ..m
                },
                ..st
            }
        } else {
            let nf2 = if has_prefix(s, "REPLYTO: "@) {
                match parse_replyto_spec(trim_ws(s.subrange(9, s.len() as int))) {
                    Ok(p) => Some(p.0),
                    Err(_) => st.nf_replyto,
                }
            } else if has_prefix(s, "REPLYTO "@) {
                match parse_replyto_spec(trim_ws(s.subrange(8, s.len() as int))) {
                    Ok(p) => Some(p.0),
                    Err(_) => st.nf_replyto,
                }
            } else {
                st.nf_replyto
            };
            let base = match m.kludges.custom {
                Some(c) => c,
                None => Seq::empty(),
            };
            SynthState {
                m: MessageV {
                    kludges: ControlLinesV { custom: Some(base.push(s)), ..m.kludges },
                    ..m
                },
                nf_replyto: nf2,
                ..st
            }
        },
        Token::Paragraph => SynthState {
            m: MessageV { body: m.body + s + seq!['\n'], ..m },
            ..st
        },
    }
}

pub open spec fn fold_tokens(st: SynthState, ts: Seq<(Token, Seq<char>)>) -> SynthState
    decreases ts.len(),
{
    if ts.len() == 0 {
        st
    } else {
        fold_tokens(apply_token(st, ts[0]), ts.drop_first())
    }
}

pub open spec fn strip_body_nl(b: Seq<char>) -> Seq<char> {
    if b.len() > 0 && b.last() == '\n' {
        b.drop_last()
    } else {
        b
    }
}

/// The address inside the last parenthesized group of an origin line; the
/// closing parenthesis must be the line's last bracket and stand more than
/// three characters past the opening one.
pub open spec fn origin_addr(origin: Seq<char>) -> Option<AddressV> {
    match rfind2_from(origin, origin.len() - 1, '(', ')') {
        Some(e) => if origin[e] == ')' {
            match rfind2_from(origin, e - 1, '(', ')') {
                Some(b) => if origin[b] == '(' && b + 3 < e {
                    match parse_address_spec(origin.subrange(b + 1, e)) {
                        Ok(a) => Some(a),
                        Err(_) => None,
                    }
                } else {
                    None
                },
                None => None,
            }
        } else {
            None
        },
        None => None,
    }
}

/// A broadcast: the display name is `all`, in any letter case, once
/// trimmed.
pub open spec fn is_all_name(name: Seq<char>) -> bool {
    let t = trim_ws(name);
    t.len() == 3 && (t[0] == 'a' || t[0] == 'A') && (t[1] == 'l' || t[1] == 'L') && (t[2] == 'l'
        || t[2] == 'L')
}

/// One custom kludge's effect on the destination and origin addresses of a
/// netmail message: `INTL dest orig` rewrites zone, net and node of both,
/// `FMPT n` the sender's point, `TOPT n` the addressee's point.
pub open spec fn apply_intl(to: AddressV, from: AddressV, s: Seq<char>) -> (AddressV, AddressV) {
    if has_prefix(s, "INTL "@) {
        let rest = trim_ws(s.subrange(5, s.len() as int));
        let sp = match find_from(rest, 0, ' ') {
            Some(k) => if 0 <= k < rest.len() {
                k
            } else {
                rest.len() as int
            },
            None => rest.len() as int,
        };
        if sp == rest.len() {
            (to, from)
        } else {
            let sp2 = match find_from(rest, sp + 1, ' ') {
                Some(k) => if sp < k < rest.len() {
                    k
                } else {
                    rest.len() as int
                },
                None => rest.len() as int,
            };
            let dp = parse_address_spec(rest.subrange(0, sp));
            let op = parse_address_spec(rest.subrange(sp + 1, sp2));
            if dp is Ok && op is Ok {
                let d = dp->Ok_0;
                let o = op->Ok_0;
                (
                    AddressV { zone: d.zone, net: d.net, node: d.node, ..to },
                    AddressV { zone: o.zone, net: o.net, node: o.node, ..from },
                )
            } else {
                (to, from)
            }
        }
    } else if has_prefix(s, "FMPT "@) || has_prefix(s, "FMPT: "@) {
        let skip: int = if has_prefix(s, "FMPT: "@) {
            6
        } else {
            5
        };
        match scan_u16(trim_ws(s.subrange(skip, s.len() as int))) {
            NumParse::Value(v) => (to, AddressV { point: v, ..from }),
            _ => (to, from),
        }
    } else if has_prefix(s, "TOPT "@) || has_prefix(s, "TOPT: "@) {
        let skip: int = if has_prefix(s, "TOPT: "@) {
            6
        } else {
            5
        };
        match scan_u16(trim_ws(s.subrange(skip, s.len() as int))) {
            NumParse::Value(v) => (AddressV { point: v, ..to }, from),
            _ => (to, from),
        }
    } else {
        (to, from)
    }
}

pub open spec fn fold_intl(
    to: AddressV,
    from: AddressV,
    ks: Seq<Seq<char>>,
    i: int,
) -> (AddressV, AddressV)
    decreases ks.len() - i,
{
    if i < 0 || i >= ks.len() {
        (to, from)
    } else {
        let p = apply_intl(to, from, ks[i]);
        fold_intl(p.0, p.1, ks, i + 1)
    }
}

/// The sender candidates in priority order: a native MSGID address
/// outranks a REPLYTO one, which outranks the origin line's parenthesized
/// address; with none of the three the header address stands.
pub open spec fn from_candidate(st: SynthState) -> Option<AddressV> {
    match st.nf_msgid {
        Some(a) => Some(a),
        None => match st.nf_replyto {
            Some(a) => Some(a),
            None => if st.m.origin.len() > 0 {
                origin_addr(st.m.origin)
            } else {
                None
            },
        },
    }
}

/// The terminal normalization: strip the trailing body newline, settle
/// the sender from the candidates in priority order, settle the
/// addressee, clear it on a broadcast, and apply the netmail address
/// kludges. The kludges come last, after the broadcast rule, so that on
/// netmail an INTL or TOPT can still rewrite a cleared address — the
/// order the wire demands.
pub open spec fn finish_msg(st: SynthState) -> MessageV {
    let m = st.m;
    let body2 = strip_body_nl(m.body);
    let from_addr = match from_candidate(st) {
        Some(a) => a,
        None => m.from.addr,
    };
    let to_addr0 = match st.nt {
        Some(a) => a,
        None => empty_addr(),
    };
    let bc = m.reply_serial is None && is_all_name(m.to.name);
    let to_addr1 = if bc {
        empty_addr()
    } else {
        to_addr0
    };
    let to_ext = if bc {
        None
    } else {
        m.to.ext_addr
    };
    let addrs = if m.area is Netmail {
        match m.kludges.custom {
            Some(ks) => fold_intl(to_addr1, from_addr, ks, 0),
            None => (to_addr1, from_addr),
        }
    } else {
        (to_addr1, from_addr)
    };
    MessageV {
        body: body2,
        from: UserV { addr: addrs.1, ..m.from },
        to: UserV { addr: addrs.0, ext_addr: to_ext, ..m.to },
        ..m
    }
}

/// A MSGID token whose left side is a native address records that
/// address as the sender candidate of highest priority, and its serial.
pub proof fn lemma_msgid_sets_candidate(st: SynthState, s: Seq<char>)
    requires
        parse_msgid_spec(trim_ws(s)) matches Ok(id) && id.addr is Native,
    ensures
        apply_token(st, (Token::MsgId, s)).nf_msgid == Some(
            parse_msgid_spec(trim_ws(s))->Ok_0.addr->Native_0,
        ),
        apply_token(st, (Token::MsgId, s)).m.msgid_serial == parse_msgid_spec(
            trim_ws(s),
        )->Ok_0.serial,
{
}

/// The sender priority order, as the terminal normalization applies it:
/// a recorded native MSGID address settles the sender whatever a REPLYTO
/// kludge or the origin line also said; a REPLYTO address settles it over
/// the origin line; the origin line speaks only when both are absent. On
/// netmail the address kludges run afterwards and may rewrite the fields.
pub proof fn lemma_from_priority(st: SynthState)
    ensures
        st.nf_msgid matches Some(a) ==> from_candidate(st) == Some(a),
        st.nf_msgid is None ==> (st.nf_replyto matches Some(a) ==> from_candidate(st) == Some(a)),
        st.nf_msgid is None && st.nf_replyto is None && st.m.origin.len() > 0 ==> from_candidate(
            st,
        ) == origin_addr(st.m.origin),
        !(st.m.area is Netmail) || st.m.kludges.custom is None ==> (from_candidate(st)
            matches Some(a) ==> finish_msg(st).from.addr == a),
{
}

/// The broadcast rule: with no reply reference and an addressee named
/// `all` in any letter case (trimmed), the settled destination is the
/// empty address and the foreign address is cleared — outside netmail,
/// whose address kludges run afterwards and may rewrite the address.
pub proof fn lemma_broadcast_clears_to(st: SynthState)
    requires
        st.m.reply_serial is None,
        is_all_name(st.m.to.name),
        !(st.m.area is Netmail),
    ensures
        finish_msg(st).to.addr == empty_addr(),
        finish_msg(st).to.ext_addr is None,
{
}

/// What parsing a token list does to a message.
pub open spec fn parse_tokens_spec(ts: Seq<(Token, Seq<char>)>, m0: MessageV) -> MessageV {
    finish_msg(fold_tokens(SynthState { m: m0, nf_msgid: None, nf_replyto: None, nt: None }, ts))
}

/// Append parsed pairs to an optional list, creating it when absent.
fn append_pairs(dst: &mut Option<Vec<NetNodePair>>, v: &Vec<NetNodePair>)
    ensures
        view_opt_pairs(*final(dst)) == Some(
            (match view_opt_pairs(*old(dst)) {
                Some(b) => b,
                None => Seq::<NetNodePair>::empty(),
            }) + v@,
        ),
{
    let mut tmp: Option<Vec<NetNodePair>> = None;
    core::mem::swap(&mut tmp, dst);
    let mut base: Vec<NetNodePair> = match tmp {
        Some(v0) => v0,
        None => Vec::new(),
    };
    let ghost b0 = base@;
    let mut j: usize = 0;
    while j < v.len()
        invariant
            j <= v@.len(),
            base@ == b0 + v@.subrange(0, j as int),
        decreases v@.len() - j,
    {
        base.push(v[j]);
        proof {
            assert(b0 + v@.subrange(0, j + 1) =~= (b0 + v@.subrange(0, j as int)).push(
                v@[j as int],
            ));
        }
        j = j + 1;
    }
    proof {
        assert(v@.subrange(0, v@.len() as int) =~= v@);
    }
    *dst = Some(base);
}

/// Append one custom kludge to the optional list, creating it when absent.
fn push_custom(dst: &mut Option<Vec<String>>, s: &String)
    ensures
        view_opt_strs(*final(dst)) == Some(
            (match view_opt_strs(*old(dst)) {
                Some(b) => b,
                None => Seq::<Seq<char>>::empty(),
            }).push(s@),
        ),
{
    let mut tmp: Option<Vec<String>> = None;
    core::mem::swap(&mut tmp, dst);
    let mut base: Vec<String> = match tmp {
        Some(v0) => v0,
        None => Vec::new(),
    };
    let ghost b0 = base.deep_view();
    base.push(s.clone());
    proof {
        assert(base.deep_view() =~= b0.push(s@));
    }
    *dst = Some(base);
}

/// The effect of one token on the message under construction.
fn apply_token_exec(
    msg: &mut Message,
    native_from: &mut Option<Address>,
    replyto_from: &mut Option<Address>,
    native_to: &mut Option<Address>,
    t: Token,
    s: &String,
)
    ensures
        (SynthState {
            m: final(msg)@,
            nf_msgid: view_opt_addr(*final(native_from)),
            nf_replyto: view_opt_addr(*final(replyto_from)),
            nt: view_opt_addr(*final(native_to)),
        }) == apply_token(
            SynthState {
                m: old(msg)@,
                nf_msgid: view_opt_addr(*old(native_from)),
                nf_replyto: view_opt_addr(*old(replyto_from)),
                nt: view_opt_addr(*old(native_to)),
            },
            (t, s@),
        ),
{
    let st = s.as_str();
    let n: usize = st.unicode_len();
    match t {
        Token::Area => {
            msg.area = Area::Echomail(trim_ws_str(st).to_owned());
        }
        Token::MsgId => {
            match MessageId::from_str(trim_ws_str(st)) {
                Ok(id) => {
                    msg.msgid_serial = id.serial;
                    match id.addr {
                        AddressKind::Native(a) => {
                            *native_from = Some(a);
                        }
                        AddressKind::External(x) => {
                            msg.msgid_addr = Some(x);
                        }
                    }
                }
                Err(_) => {}
            }
        }
        Token::Reply => {
            match MessageId::from_str(trim_ws_str(st)) {
                Ok(id) => {
                    msg.reply_serial = Some(id.serial);
                    match id.addr {
                        AddressKind::Native(a) => {
                            *native_to = Some(a);
                        }
                        AddressKind::External(x) => {
                            msg.reply_addr = Some(x);
                        }
                    }
                }
                Err(_) => {}
            }
        }
        Token::Pid => {
            msg.kludges.pid = Some(s.clone());
        }
        Token::Tid => {
            msg.kludges.tid = Some(s.clone());
        }
        Token::TzUtc => {
            msg.kludges.tzutc = Some(s.clone());
        }
        Token::TearLine(k) => {
            let k2: usize = if k <= n {
                k
            } else {
                n
            };
            msg.tear_line.append(st.substring_char(k2, n));
        }
        Token::Origin(k) => {
            let k2: usize = if k <= n {
                k
            } else {
                n
            };
            msg.origin.append(st.substring_char(k2, n));
        }
        Token::SeenBy(k) => {
            let k2: usize = if k <= n {
                k
            } else {
                n
            };
            let rest = trim_ws_str(st.substring_char(k2, n));
            match parse_net_node_pairs(rest) {
                Ok(v) => {
                    append_pairs(&mut msg.kludges.seen_by, &v);
                }
                Err(_) => {}
            }
        }
        Token::Path => {
            let rest = trim_ws_str(st);
            match parse_net_node_pairs(rest) {
                Ok(v) => {
                    append_pairs(&mut msg.kludges.path, &v);
                }
                Err(_) => {}
            }
        }
        Token::Kludge => {
            proof {
                reveal_strlit("REPLYADDR: ");
                reveal_strlit("REPLYADDR ");
                reveal_strlit("REPLYTO: ");
                reveal_strlit("REPLYTO ");
            }
            if starts_with(st, "REPLYADDR: ") {
                msg.from.ext_addr = Some(st.substring_char(11, n).to_owned());
            } else if starts_with(st, "REPLYADDR ") {
                msg.from.ext_addr = Some(st.substring_char(10, n).to_owned());
            } else {
                if starts_with(st, "REPLYTO: ") {
                    match parse_replyto(trim_ws_str(st.substring_char(9, n))) {
                        Ok(p) => {
                            *replyto_from = Some(p.0);
                        }
                        Err(_) => {}
                    }
                } else if starts_with(st, "REPLYTO ") {
                    match parse_replyto(trim_ws_str(st.substring_char(8, n))) {
                        Ok(p) => {
                            *replyto_from = Some(p.0);
                        }
                        Err(_) => {}
                    }
                }
                push_custom(&mut msg.kludges.custom, s);
            }
        }
        Token::Paragraph => {
            msg.body.append(st);
            msg.body.append("\n");
            proof {
                reveal_strlit("\n");
                assert("\n"@ =~= seq!['\n']);
            }
        }
    }
}

/// Walk the classified tokens of one message, fill its fields, reconcile
/// the originator and destination addresses in priority order, and apply
/// the terminal normalization.
pub fn parse_tokens(tokens: &Vec<(Token, String)>, msg: &mut Message)
    ensures
        final(msg)@ == parse_tokens_spec(toks_view(tokens@), old(msg)@),
{
    let ghost tsv = toks_view(tokens@);
    let ghost init = SynthState { m: old(msg)@, nf_msgid: None, nf_replyto: None, nt: None };
    let mut native_from: Option<Address> = None;
    let mut replyto_from: Option<Address> = None;
    let mut native_to: Option<Address> = None;
    let mut i: usize = 0;
    proof {
        assert(tsv.subrange(0, tsv.len() as int) =~= tsv);
    }
    while i < tokens.len()
        invariant
            i <= tokens@.len(),
            tsv == toks_view(tokens@),
            tsv.len() == tokens@.len(),
            init == (SynthState { m: old(msg)@, nf_msgid: None, nf_replyto: None, nt: None }),
            fold_tokens(init, tsv) == fold_tokens(
                SynthState {
                    m: msg@,
                    nf_msgid: view_opt_addr(native_from),
                    nf_replyto: view_opt_addr(replyto_from),
                    nt: view_opt_addr(native_to),
                },
                tsv.subrange(i as int, tsv.len() as int),
            ),
        decreases tokens@.len() - i,
    {
        let ghost rest = tsv.subrange(i as int, tsv.len() as int);
        proof {
            assert(rest[0] == tsv[i as int]);
            assert(rest.drop_first() =~= tsv.subrange(i + 1, tsv.len() as int));
        }
        let t = tokens[i].0;
        apply_token_exec(msg, &mut native_from, &mut replyto_from, &mut native_to, t, &tokens[i].1);
        i = i + 1;
    }
    proof {
        assert(tsv.subrange(tsv.len() as int, tsv.len() as int).len() == 0);
    }
    // strip the trailing newline left by the last body paragraph
    let bn: usize = msg.body.as_str().unicode_len();
    if bn > 0 && msg.body.as_str().get_char(bn - 1) == '\n' {
        let stripped = msg.body.as_str().substring_char(0, bn - 1).to_owned();
        proof {
            assert(stripped@ =~= msg.body@.drop_last());
        }
        msg.body = stripped;
    }
    // settle the sender: a native MSGID address outranks a REPLYTO one,
    // which outranks the origin line's parenthesized address
    let mut chosen_from: Option<Address> = native_from;
    if chosen_from.is_none() {
        chosen_from = replyto_from;
    }
    let on: usize = msg.origin.as_str().unicode_len();
    if chosen_from.is_none() && on > 0 {
        let o = msg.origin.as_str();
        match rfind_char2_from(o, on - 1, '(', ')') {
            Some(e) => {
                if o.get_char(e) == ')' && e > 0 {
                    match rfind_char2_from(o, e - 1, '(', ')') {
                        Some(b) => {
                            if o.get_char(b) == '(' && e - b > 3 {
                                match Address::from_str(o.substring_char(b + 1, e)) {
                                    Ok(a) => {
                                        chosen_from = Some(a);
                                    }
                                    Err(_) => {}
                                }
                            }
                        }
                        None => {}
                    }
                }
            }
            None => {}
        }
        proof {
            assert(view_opt_addr(chosen_from) == origin_addr(msg.origin@));
        }
    }
    match chosen_from {
        Some(a) => {
            msg.from.addr = a;
        }
        None => {}
    }
    match native_to {
        Some(a) => {
            msg.to.addr = a;
        }
        None => {
            msg.to.addr = Address::empty();
        }
    }
    // a message to "All" with no reply reference is a broadcast
    let tname = trim_ws_str(msg.to.name.as_str());
    let tn: usize = tname.unicode_len();
    let all = tn == 3 && (tname.get_char(0) == 'a' || tname.get_char(0) == 'A') && (tname.get_char(
        1,
    ) == 'l' || tname.get_char(1) == 'L') && (tname.get_char(2) == 'l' || tname.get_char(2) == 'L');
    if msg.reply_serial.is_none() && all {
        msg.to.addr = Address::empty();
        msg.to.ext_addr = None;
    }
    // netmail only: INTL, FMPT and TOPT override the settled addresses
    let ghost m1 = msg@;
    if matches!(msg.area, Area::Netmail) {
        let kn: usize = match &msg.kludges.custom {
            Some(ks) => ks.len(),
            None => 0,
        };
        let ghost ksv = match msg@.kludges.custom {
            Some(ks) => ks,
            None => Seq::<Seq<char>>::empty(),
        };
        let ghost to1 = msg@.to.addr;
        let ghost from1 = msg@.from.addr;
        let mut j: usize = 0;
        while j < kn
            invariant
                j <= kn,
                m1.kludges.custom is Some ==> kn == ksv.len(),
                m1.kludges.custom is None ==> kn == 0,
                m1.kludges.custom matches Some(ks) ==> ks == ksv,
                fold_intl(to1, from1, ksv, 0) == fold_intl(
                    msg@.to.addr,
                    msg@.from.addr,
                    ksv,
                    j as int,
                ),
                msg@ == (MessageV {
                    to: UserV { addr: msg@.to.addr, ..m1.to },
                    from: UserV { addr: msg@.from.addr, ..m1.from },
                    ..m1
                }),
            decreases kn - j,
        {
            let sj: String = match &msg.kludges.custom {
                Some(ks) => ks[j].clone(),
                None => String::new(),
            };
            proof {
                assert(sj@ == ksv[j as int]);
            }
            apply_intl_exec(msg, &sj);
            j = j + 1;
        }
    }
}

/// One custom kludge applied to the settled addresses of a netmail
/// message.
fn apply_intl_exec(msg: &mut Message, s: &String)
    ensures
        ({
            let p = apply_intl(old(msg)@.to.addr, old(msg)@.from.addr, s@);
            final(msg)@ == (MessageV {
                to: UserV { addr: p.0, ..old(msg)@.to },
                from: UserV { addr: p.1, ..old(msg)@.from },
                ..old(msg)@
            })
        }),
{
    proof {
        reveal_strlit("INTL ");
        reveal_strlit("FMPT ");
        reveal_strlit("FMPT: ");
        reveal_strlit("TOPT ");
        reveal_strlit("TOPT: ");
    }
    let st = s.as_str();
    let n: usize = st.unicode_len();
    if starts_with(st, "INTL ") {
        let suf = trim_ws_str(st.substring_char(5, n));
        let sn: usize = suf.unicode_len();
        let sp: usize = match find_char_from(suf, 0, ' ') {
            Some(k) => k,
            None => sn,
        };
        if sp < sn {
            let sp2: usize = match find_char_from(suf, sp + 1, ' ') {
                Some(k) => k,
                None => sn,
            };
            let dp = Address::from_str(suf.substring_char(0, sp));
            let op = Address::from_str(suf.substring_char(sp + 1, sp2));
            match (dp, op) {
                (Ok(d), Ok(o)) => {
                    msg.to.addr.zone = d.zone;
                    msg.to.addr.net = d.net;
                    msg.to.addr.node = d.node;
                    msg.from.addr.zone = o.zone;
                    msg.from.addr.net = o.net;
                    msg.from.addr.node = o.node;
                }
                _ => {}
            }
        }
    } else if starts_with(st, "FMPT ") || starts_with(st, "FMPT: ") {
        let skip: usize = if starts_with(st, "FMPT: ") {
            6
        } else {
            5
        };
        let suf = trim_ws_str(st.substring_char(skip, n));
        let sn: usize = suf.unicode_len();
        match crate::util::scan_u16_range(suf, 0, sn) {
            NumParse::Value(v) => {
                msg.from.addr.point = v;
            }
            _ => {}
        }
        proof {
            assert(suf@.subrange(0, suf@.len() as int) =~= suf@);
        }
    } else if starts_with(st, "TOPT ") || starts_with(st, "TOPT: ") {
        let skip: usize = if starts_with(st, "TOPT: ") {
            6
        } else {
            5
        };
        let suf = trim_ws_str(st.substring_char(skip, n));
        let sn: usize = suf.unicode_len();
        match crate::util::scan_u16_range(suf, 0, sn) {
            NumParse::Value(v) => {
                msg.to.addr.point = v;
            }
            _ => {}
        }
        proof {
            assert(suf@.subrange(0, suf@.len() as int) =~= suf@);
        }
    }
}

// ---------------------------------------------------------------------------
// the synthesizer over one decoded packet
// ---------------------------------------------------------------------------

/// The posted stamp of a raw message, or the packet's creation stamp when
/// the field does not parse.
pub open spec fn posted_or_created(posted: Seq<u8>, created: DateTime) -> DateTime {
    if valid_utf8(posted) && parse_ftn_datetime_spec(decode_utf8(posted)) is Ok {
        parse_ftn_datetime_spec(decode_utf8(posted))->Ok_0
    } else {
        created
    }
}

/// One raw packet message, synthesized: the text fields decoded from
/// IBM866, the body tokenized and parsed, the addresses reconciled.
pub open spec fn synth_msg_spec(raw: PktMessageV, created: DateTime) -> MessageV {
    let m0 = MessageV {
        area: AreaV::Netmail,
        posted: posted_or_created(raw.posted, created),
        from: UserV {
            addr: AddressV {
                zone: raw.from.address.zone,
                net: raw.from.address.net,
                node: raw.from.address.node,
                point: raw.from.address.point,
                domain: None,
            },
            name: ibm866_of(raw.from.name),
            ext_addr: None,
        },
        to: UserV {
            addr: AddressV {
                zone: raw.to.address.zone,
                net: raw.to.address.net,
                node: raw.to.address.node,
                point: raw.to.address.point,
                domain: None,
            },
            name: ibm866_of(raw.to.name),
            ext_addr: None,
        },
        flags: raw.flags,
        msgid_serial: 0,
        reply_serial: None,
        msgid_addr: None,
        reply_addr: None,
        subj: ibm866_of(raw.subj),
        body: Seq::empty(),
        tear_line: Seq::empty(),
        origin: Seq::empty(),
        kludges: empty_controls(),
    };
    parse_tokens_spec(tokenize_spec(ibm866_of(raw.text)), m0)
}

pub open spec fn messages_from_spec(pkg: PackageV) -> Seq<MessageV> {
    Seq::new(pkg.messages.len(), |i: int| synth_msg_spec(pkg.messages[i], pkg.created))
}

pub open spec fn msgs_view(v: Seq<Message>) -> Seq<MessageV> {
    Seq::new(v.len(), |i: int| v[i]@)
}

/// Synthesize the normalized messages of one decoded packet. The IBM866
/// code page assigns a character to every byte, so this always succeeds;
/// the `Result` stands where a stricter code page would report a bad
/// byte.
pub fn messages_from(pkg: &crate::pkt::Package) -> (r: Result<Vec<Message>, DecodeError>)
    ensures
        r is Ok,
        r matches Ok(v) ==> msgs_view(v@) == messages_from_spec(pkg.deep_view()),
{
    let ghost pv = pkg.deep_view();
    let mut out: Vec<Message> = Vec::new();
    let mut i: usize = 0;
    while i < pkg.messages.len()
        invariant
            i <= pkg.messages@.len(),
            pv == pkg.deep_view(),
            pv.messages.len() == pkg.messages@.len(),
            out@.len() == i,
            forall|j: int|
                0 <= j < i ==> (#[trigger] out@[j])@ == synth_msg_spec(pv.messages[j], pv.created),
        decreases pkg.messages@.len() - i,
    {
        let raw: &crate::pkt::Message = &pkg.messages[i];
        proof {
            assert(raw.deep_view() == pv.messages[i as int]);
        }
        let posted_dt: DateTime = match utf8_to_string(raw.posted.as_slice()) {
            Ok(s) => match parse_ftn_datetime(s.as_str()) {
                Ok(dt) => dt,
                Err(_) => pkg.created,
            },
            Err(_) => pkg.created,
        };
        let from_name: String = match decode_ibm866(raw.from.name.as_slice()) {
            Ok(s) => s,
            Err(e) => {
                return Err(e);
            }
        };
        let to_name: String = match decode_ibm866(raw.to.name.as_slice()) {
            Ok(s) => s,
            Err(e) => {
                return Err(e);
            }
        };
        let subj: String = match decode_ibm866(raw.subj.as_slice()) {
            Ok(s) => s,
            Err(e) => {
                return Err(e);
            }
        };
        let text: String = match decode_ibm866(raw.text.as_slice()) {
            Ok(s) => s,
            Err(e) => {
                return Err(e);
            }
        };
        let mut m = Message {
            area: Area::Netmail,
            posted: posted_dt,
            from: User {
                addr: Address::new_4d(
                    raw.from.address.zone,
                    raw.from.address.net,
                    raw.from.address.node,
                    raw.from.address.point,
                ),
                name: from_name,
                ext_addr: None,
            },
            to: User {
                addr: Address::new_4d(
                    raw.to.address.zone,
                    raw.to.address.net,
                    raw.to.address.node,
                    raw.to.address.point,
                ),
                name: to_name,
                ext_addr: None,
            },
            flags: raw.flags,
            msgid_serial: 0,
            reply_serial: None,
            msgid_addr: None,
            reply_addr: None,
            subj,
            body: String::new(),
            tear_line: String::new(),
            origin: String::new(),
            kludges: ControlLines::empty(),
        };
        let toks = tokenize_msg_body(text.as_str());
        parse_tokens(&toks, &mut m);
        out.push(m);
        i = i + 1;
    }
    proof {
        assert(msgs_view(out@) =~= messages_from_spec(pv));
    }
    Ok(out)
}

} // verus!
