//! The per-area message base: an insert-only relational store with
//! deduplicating inserts and at-most-once insertion of a message keyed by
//! (serial, posted). Persisting the rows is the caller's concern; the
//! tables and the rules that fill them live here.

use vstd::prelude::*;

verus! {

use vstd::string::{StrSliceExecFns, StringExecFns};
use vstd::relations::{sorted_by, total_ordering};
use vstd::seq_lib::lemma_sorted_unique;
use vstd::multiset::Multiset;
use crate::addr::NetNodePair;
use crate::dt::DateTime;
use crate::msg::{Message, MessageV, User, UserV, view_opt_pairs};
use crate::util::{trim_sp, trim_sp_str, trim_ws, trim_ws_str};

// ---------------------------------------------------------------------------
// rows
// ---------------------------------------------------------------------------

/// A row of the `users` table, in canonical form: the name trimmed with the
/// blank fallback, empty strings for a missing domain or foreign address.
#[derive(Debug)]
pub struct UserRow {
    pub name: String,
    pub zone: u16,
    pub net: u16,
    pub node: u16,
    pub point: u16,
    pub domain: String,
    pub foreign_address: String,
}

pub ghost struct UserRowV {
    pub name: Seq<char>,
    pub zone: u16,
    pub net: u16,
    pub node: u16,
    pub point: u16,
    pub domain: Seq<char>,
    pub foreign_address: Seq<char>,
}

impl DeepView for UserRow {
    type V = UserRowV;

    open spec fn deep_view(&self) -> UserRowV {
        UserRowV {
            name: self.name@,
            zone: self.zone,
            net: self.net,
            node: self.node,
            point: self.point,
            domain: self.domain@,
            foreign_address: self.foreign_address@,
        }
    }
}

/// A row of the `messages` table. A zero in one of the id columns, in
/// `reply_serial`, or an empty string stands for SQL NULL.
#[derive(Debug)]
pub struct MessageRow {
    pub posted: DateTime,
    pub tzutc: String,
    pub msgid_serial: u32,
    pub reply_serial: u32,
    pub msgid_address: String,
    pub reply_address: String,
    pub from_id: usize,
    pub to_id: usize,
    pub flags: u16,
    pub subject_id: usize,
    pub body: String,
    pub tear_line_id: usize,
    pub origin_id: usize,
    pub pid_id: usize,
    pub tid_id: usize,
    pub seen_by_id: usize,
    pub path_id: usize,
}

pub ghost struct MessageRowV {
    pub posted: DateTime,
    pub tzutc: Seq<char>,
    pub msgid_serial: u32,
    pub reply_serial: u32,
    pub msgid_address: Seq<char>,
    pub reply_address: Seq<char>,
    pub from_id: int,
    pub to_id: int,
    pub flags: u16,
    pub subject_id: int,
    pub body: Seq<char>,
    pub tear_line_id: int,
    pub origin_id: int,
    pub pid_id: int,
    pub tid_id: int,
    pub seen_by_id: int,
    pub path_id: int,
}

impl DeepView for MessageRow {
    type V = MessageRowV;

    open spec fn deep_view(&self) -> MessageRowV {
        MessageRowV {
            posted: self.posted,
            tzutc: self.tzutc@,
            msgid_serial: self.msgid_serial,
            reply_serial: self.reply_serial,
            msgid_address: self.msgid_address@,
            reply_address: self.reply_address@,
            from_id: self.from_id as int,
            to_id: self.to_id as int,
            flags: self.flags,
            subject_id: self.subject_id as int,
            body: self.body@,
            tear_line_id: self.tear_line_id as int,
            origin_id: self.origin_id as int,
            pid_id: self.pid_id as int,
            tid_id: self.tid_id as int,
            seen_by_id: self.seen_by_id as int,
            path_id: self.path_id as int,
        }
    }
}

// ---------------------------------------------------------------------------
// generic first-match lookup
// ---------------------------------------------------------------------------

/// Index of the first row equal to `x`, or -1.
pub open spec fn find_row<T>(table: Seq<T>, x: T) -> int
    decreases table.len(),
{
    if table.len() == 0 {
        -1
    } else if table[0] == x {
        0
    } else {
        let r = find_row(table.drop_first(), x);
        if r == -1 {
            -1
        } else {
            r + 1
        }
    }
}

pub proof fn lemma_find_row_props<T>(table: Seq<T>, x: T)
    ensures
        find_row(table, x) == -1 ==> forall|i: int| 0 <= i < table.len() ==> table[i] != x,
        find_row(table, x) != -1 ==> {
            let r = find_row(table, x);
            0 <= r < table.len() && table[r] == x && forall|i: int| 0 <= i < r ==> table[i] != x
        },
    decreases table.len(),
{
    if table.len() > 0 && table[0] != x {
        let d = table.drop_first();
        lemma_find_row_props(d, x);
        assert(forall|i: int| #![trigger table[i]] 1 <= i < table.len() ==> table[i] == d[i - 1]);
    }
}

pub proof fn lemma_find_row_is<T>(table: Seq<T>, x: T, k: int)
    requires
        0 <= k < table.len(),
        table[k] == x,
        forall|i: int| 0 <= i < k ==> table[i] != x,
    ensures
        find_row(table, x) == k,
{
    lemma_find_row_props(table, x);
    let r = find_row(table, x);
    if r == -1 {
        assert(table[k] != x);
    } else {
        if r < k {
            assert(table[r] != x);
        }
        if r > k {
            assert(table[k] != x);
        }
    }
}

pub proof fn lemma_find_row_none<T>(table: Seq<T>, x: T)
    requires
        forall|i: int| 0 <= i < table.len() ==> table[i] != x,
    ensures
        find_row(table, x) == -1,
{
    lemma_find_row_props(table, x);
    let r = find_row(table, x);
    if r != -1 {
        assert(table[r] != x);
    }
}

// ---------------------------------------------------------------------------
// scalar dedup tables
// ---------------------------------------------------------------------------

/// Get-or-insert into a table of trimmed texts: text that is blank under
/// the white-space trim means no row and id 0; a stored row carries the
/// text with spaces stripped, as the relational schema keys it.
pub open spec fn text_id_spec(table: Seq<Seq<char>>, text: Seq<char>) -> (Seq<Seq<char>>, int) {
    if trim_ws(text).len() == 0 {
        (table, 0)
    } else {
        let t = trim_sp(text);
        let i = find_row(table, t);
        if i >= 0 {
            (table, i + 1)
        } else {
            (table.push(t), table.len() as int + 1)
        }
    }
}

/// The canonical user row for a message endpoint: the display name trimmed,
/// `<empty>` when blank; domain and foreign address trimmed, empty when
/// absent.
pub open spec fn user_row_of(u: UserV) -> UserRowV {
    UserRowV {
        name: if trim_sp(u.name).len() == 0 {
            "<empty>"@
        } else {
            trim_sp(u.name)
        },
        zone: u.addr.zone,
        net: u.addr.net,
        node: u.addr.node,
        point: u.addr.point,
        domain: match u.addr.domain {
            Some(d) => trim_sp(d),
            None => Seq::empty(),
        },
        foreign_address: match u.ext_addr {
            Some(d) => trim_sp(d),
            None => Seq::empty(),
        },
    }
}

/// Get-or-insert of the canonical user row; users are content-addressed by
/// the whole tuple.
pub open spec fn user_id_spec(users: Seq<UserRowV>, u: UserV) -> (Seq<UserRowV>, int) {
    let row = user_row_of(u);
    let i = find_row(users, row);
    if i >= 0 {
        (users, i + 1)
    } else {
        (users.push(row), users.len() as int + 1)
    }
}

// ---------------------------------------------------------------------------
// seen-by sets and path sequences
// ---------------------------------------------------------------------------

/// Order on (net, node) pairs, `net` before `node`.
pub open spec fn pair_leq(a: NetNodePair, b: NetNodePair) -> bool {
    a.0 < b.0 || (a.0 == b.0 && a.1 <= b.1)
}

pub open spec fn pair_leq_fn() -> spec_fn(NetNodePair, NetNodePair) -> bool {
    |x: NetNodePair, y: NetNodePair| pair_leq(x, y)
}

pub open spec fn sort_pairs(s: Seq<NetNodePair>) -> Seq<NetNodePair> {
    s.sort_by(pair_leq_fn())
}

pub proof fn lemma_pair_leq_total()
    ensures
        total_ordering(pair_leq_fn()),
{
    let leq = pair_leq_fn();
    assert(vstd::relations::reflexive(leq)) by {
        assert(forall|x: NetNodePair| #[trigger] leq(x, x));
    }
    assert(vstd::relations::antisymmetric(leq)) by {
        assert(forall|x: NetNodePair, y: NetNodePair|
            #[trigger] leq(x, y) && #[trigger] leq(y, x) ==> x == y);
    }
    assert(vstd::relations::transitive(leq)) by {
        assert(forall|x: NetNodePair, y: NetNodePair, z: NetNodePair|
            #[trigger] leq(x, y) && #[trigger] leq(y, z) ==> leq(x, z));
    }
    assert(vstd::relations::strongly_connected(leq)) by {
        assert(forall|x: NetNodePair, y: NetNodePair| #[trigger] leq(x, y) || #[trigger] leq(
            y,
            x,
        ));
    }
}

/// Get-or-insert of a group of rows; the new id is one past the highest.
pub open spec fn group_id_spec(groups: Seq<Seq<NetNodePair>>, key: Seq<NetNodePair>) -> (
    Seq<Seq<NetNodePair>>,
    int,
) {
    let i = find_row(groups, key);
    if i >= 0 {
        (groups, i + 1)
    } else {
        (groups.push(key), groups.len() as int + 1)
    }
}

/// A seen-by list is stored as a sorted group: two lists that are
/// permutations of each other share one id.
pub open spec fn seenby_id_spec(groups: Seq<Seq<NetNodePair>>, pairs: Option<Seq<NetNodePair>>) -> (
    Seq<Seq<NetNodePair>>,
    int,
) {
    match pairs {
        None => (groups, 0),
        Some(ps) => if ps.len() == 0 {
            (groups, 0)
        } else {
            group_id_spec(groups, sort_pairs(ps))
        },
    }
}

/// A path list is stored in its given order: only an order-identical list
/// shares the id.
pub open spec fn path_id_spec(groups: Seq<Seq<NetNodePair>>, pairs: Option<Seq<NetNodePair>>) -> (
    Seq<Seq<NetNodePair>>,
    int,
) {
    match pairs {
        None => (groups, 0),
        Some(ps) => if ps.len() == 0 {
            (groups, 0)
        } else {
            group_id_spec(groups, ps)
        },
    }
}

// ---------------------------------------------------------------------------
// reply-based user resolution and the duplicate key
// ---------------------------------------------------------------------------

/// The sender's user id of the first message whose serial the reply refers
/// to and whose sender bears the given (trimmed) name; 0 when there is
/// none.
pub open spec fn find_reply_from(
    msgs: Seq<MessageRowV>,
    users: Seq<UserRowV>,
    reply: u32,
    name: Seq<char>,
) -> int
    decreases msgs.len(),
{
    if msgs.len() == 0 {
        0
    } else if msgs[0].msgid_serial == reply && 1 <= msgs[0].from_id <= users.len()
        && users[msgs[0].from_id - 1].name == name {
        msgs[0].from_id
    } else {
        find_reply_from(msgs.drop_first(), users, reply, name)
    }
}

/// The at-most-once key: some row already carries this serial and posted
/// stamp.
pub open spec fn row_key_taken(msgs: Seq<MessageRowV>, serial: u32, posted: DateTime) -> bool {
    exists|i: int|
        #![trigger msgs[i]]
        0 <= i < msgs.len() && msgs[i].msgid_serial == serial && msgs[i].posted == posted
}

// ---------------------------------------------------------------------------
// the base
// ---------------------------------------------------------------------------

pub struct MessageBase {
    pub users: Vec<UserRow>,
    pub subjects: Vec<String>,
    pub software: Vec<String>,
    pub tear_lines: Vec<String>,
    pub origins: Vec<String>,
    pub seen_bys: Vec<Vec<NetNodePair>>,
    pub paths: Vec<Vec<NetNodePair>>,
    pub messages: Vec<MessageRow>,
    pub kludges: Vec<(i64, String)>,
}

pub ghost struct BaseV {
    pub users: Seq<UserRowV>,
    pub subjects: Seq<Seq<char>>,
    pub software: Seq<Seq<char>>,
    pub tear_lines: Seq<Seq<char>>,
    pub origins: Seq<Seq<char>>,
    pub seen_bys: Seq<Seq<NetNodePair>>,
    pub paths: Seq<Seq<NetNodePair>>,
    pub messages: Seq<MessageRowV>,
    pub kludges: Seq<(i64, Seq<char>)>,
}

impl View for MessageBase {
    type V = BaseV;

    open spec fn view(&self) -> BaseV {
        BaseV {
            users: self.users.deep_view(),
            subjects: self.subjects.deep_view(),
            software: self.software.deep_view(),
            tear_lines: self.tear_lines.deep_view(),
            origins: self.origins.deep_view(),
            seen_bys: self.seen_bys.deep_view(),
            paths: self.paths.deep_view(),
            messages: self.messages.deep_view(),
            kludges: self.kludges.deep_view(),
        }
    }
}

pub open spec fn empty_base() -> BaseV {
    BaseV {
        users: Seq::empty(),
        subjects: Seq::empty(),
        software: Seq::empty(),
        tear_lines: Seq::empty(),
        origins: Seq::empty(),
        seen_bys: Seq::empty(),
        paths: Seq::empty(),
        messages: Seq::empty(),
        kludges: Seq::empty(),
    }
}

/// What one toss does: a duplicate key leaves the base alone and yields the
/// sentinel -1; otherwise every related row is deduplicated or inserted, in
/// this order, and the new message row's id comes back.
pub open spec fn toss_spec(b: BaseV, m: MessageV) -> (BaseV, i64) {
    if row_key_taken(b.messages, m.msgid_serial, m.posted) {
        (b, -1i64)
    } else {
        let (subjects2, subj) = text_id_spec(b.subjects, m.subj);
        let (users2, from) = user_id_spec(b.users, m.from);
        let rf = match m.reply_serial {
            Some(rs) => find_reply_from(b.messages, users2, rs, trim_sp(m.to.name)),
            None => 0,
        };
        let (users3, to) = if rf > 0 {
            (users2, rf)
        } else {
            user_id_spec(users2, m.to)
        };
        let (seen2, seen_id) = seenby_id_spec(b.seen_bys, m.kludges.seen_by);
        let (paths2, path_id) = path_id_spec(b.paths, m.kludges.path);
        let (soft2, pid) = match m.kludges.pid {
            Some(p) => text_id_spec(b.software, p),
            None => (b.software, 0int),
        };
        let (soft3, tid) = match m.kludges.tid {
            Some(t) => text_id_spec(soft2, t),
            None => (soft2, 0int),
        };
        let (tears2, tear) = text_id_spec(b.tear_lines, m.tear_line);
        let (origins2, orig) = text_id_spec(b.origins, m.origin);
        let row = MessageRowV {
            posted: m.posted,
            tzutc: match m.kludges.tzutc {
                Some(t) => trim_sp(t),
                None => Seq::empty(),
            },
            msgid_serial: m.msgid_serial,
            reply_serial: match m.reply_serial {
                Some(r) => r,
                None => 0,
            },
            msgid_address: match m.msgid_addr {
                Some(a) => trim_sp(a),
                None => Seq::empty(),
            },
            reply_address: match m.reply_addr {
                Some(a) => trim_sp(a),
                None => Seq::empty(),
            },
            from_id: from,
            to_id: to,
            flags: m.flags,
            subject_id: subj,
            body: m.body,
            tear_line_id: tear,
            origin_id: orig,
            pid_id: pid,
            tid_id: tid,
            seen_by_id: seen_id,
            path_id: path_id,
        };
        let mid = (b.messages.len() + 1) as i64;
        let klu = match m.kludges.custom {
            Some(ks) => b.kludges + ks.map_values(|k: Seq<char>| (mid, k)),
            None => b.kludges,
        };
        (
            BaseV {
                users: users3,
                subjects: subjects2,
                software: soft3,
                tear_lines: tears2,
                origins: origins2,
                seen_bys: seen2,
                paths: paths2,
                messages: b.messages.push(row),
                kludges: klu,
            },
            mid,
        )
    }
}

// ---------------------------------------------------------------------------
// well-formedness
// ---------------------------------------------------------------------------

pub open spec fn distinct_rows<T>(t: Seq<T>) -> bool {
    forall|i: int, j: int| 0 <= i < j < t.len() ==> t[i] != t[j]
}

/// The base's internal invariant: every dedup table holds pairwise
/// distinct rows, a scalar table only nonempty texts, a group only a
/// nonempty list (seen-by groups also sorted), and no two message rows
/// share the (msgid_serial, posted) key — the at-most-once guarantee.
pub open spec fn base_wf(b: BaseV) -> bool {
    &&& distinct_rows(b.subjects)
    &&& distinct_rows(b.software)
    &&& distinct_rows(b.tear_lines)
    &&& distinct_rows(b.origins)
    &&& distinct_rows(b.users)
    &&& distinct_rows(b.seen_bys)
    &&& distinct_rows(b.paths)
    &&& forall|i: int| 0 <= i < b.subjects.len() ==> (#[trigger] b.subjects[i]).len() > 0
    &&& forall|i: int| 0 <= i < b.software.len() ==> (#[trigger] b.software[i]).len() > 0
    &&& forall|i: int| 0 <= i < b.tear_lines.len() ==> (#[trigger] b.tear_lines[i]).len() > 0
    &&& forall|i: int| 0 <= i < b.origins.len() ==> (#[trigger] b.origins[i]).len() > 0
    &&& forall|i: int|
        0 <= i < b.seen_bys.len() ==> (#[trigger] b.seen_bys[i]).len() > 0 && sorted_by(
            b.seen_bys[i],
            pair_leq_fn(),
        )
    &&& forall|i: int| 0 <= i < b.paths.len() ==> (#[trigger] b.paths[i]).len() > 0
    &&& forall|i: int, j: int|
        0 <= i < j < b.messages.len() ==> !((#[trigger] b.messages[i]).msgid_serial == (
        #[trigger] b.messages[j]).msgid_serial && b.messages[i].posted == b.messages[j].posted)
}

pub proof fn lemma_empty_base_wf()
    ensures
        base_wf(empty_base()),
{
}

proof fn lemma_text_id_wf(t: Seq<Seq<char>>, x: Seq<char>)
    requires
        distinct_rows(t),
        forall|i: int| 0 <= i < t.len() ==> (#[trigger] t[i]).len() > 0,
    ensures
        distinct_rows(text_id_spec(t, x).0),
        forall|i: int| 0 <= i < text_id_spec(t, x).0.len() ==> (#[trigger] text_id_spec(t, x).0[i]).len() > 0,
{
    if trim_ws(x).len() > 0 {
        crate::util::lemma_trim_ws_nonblank_trim_sp(x);
        lemma_find_row_props(t, trim_sp(x));
    }
}

proof fn lemma_user_id_wf(us: Seq<UserRowV>, u: UserV)
    requires
        distinct_rows(us),
    ensures
        distinct_rows(user_id_spec(us, u).0),
{
    lemma_find_row_props(us, user_row_of(u));
}

proof fn lemma_group_id_wf(g: Seq<Seq<NetNodePair>>, key: Seq<NetNodePair>)
    requires
        distinct_rows(g),
    ensures
        distinct_rows(group_id_spec(g, key).0),
        forall|i: int|
            0 <= i < group_id_spec(g, key).0.len() ==> #[trigger] group_id_spec(g, key).0[i] == key
                || (0 <= i < g.len() && group_id_spec(g, key).0[i] == g[i]),
{
    lemma_find_row_props(g, key);
}

/// Tossing keeps the base well formed: the dedup tables stay free of
/// repeats and the (serial, posted) key stays unique.
pub proof fn lemma_toss_preserves_wf(b: BaseV, m: MessageV)
    requires
        base_wf(b),
    ensures
        base_wf(toss_spec(b, m).0),
{
    if !row_key_taken(b.messages, m.msgid_serial, m.posted) {
        lemma_text_id_wf(b.subjects, m.subj);
        lemma_user_id_wf(b.users, m.from);
        let users2 = user_id_spec(b.users, m.from).0;
        lemma_user_id_wf(users2, m.to);
        match m.kludges.seen_by {
            Some(ps) => {
                if ps.len() > 0 {
                    let leq = pair_leq_fn();
                    lemma_pair_leq_total();
                    ps.lemma_sort_by_ensures(leq);
                    vstd::seq_lib::to_multiset_len(ps);
                    vstd::seq_lib::to_multiset_len(sort_pairs(ps));
                    lemma_group_id_wf(b.seen_bys, sort_pairs(ps));
                }
            }
            None => {}
        }
        match m.kludges.path {
            Some(ps) => {
                if ps.len() > 0 {
                    lemma_group_id_wf(b.paths, ps);
                }
            }
            None => {}
        }
        let soft2 = match m.kludges.pid {
            Some(p) => {
                lemma_text_id_wf(b.software, p);
                text_id_spec(b.software, p).0
            }
            None => b.software,
        };
        match m.kludges.tid {
            Some(t) => {
                lemma_text_id_wf(soft2, t);
            }
            None => {}
        }
        lemma_text_id_wf(b.tear_lines, m.tear_line);
        lemma_text_id_wf(b.origins, m.origin);
    }
}

// ---------------------------------------------------------------------------
// laws of the store
// ---------------------------------------------------------------------------

/// Tossing a message always leaves a row bearing its (serial, posted) key,
/// so a second toss with the same key returns the dedup sentinel -1 and
/// changes no table: toss is idempotent on the key.
pub proof fn lemma_toss_idempotent(b: BaseV, m1: MessageV, m2: MessageV)
    requires
        m2.msgid_serial == m1.msgid_serial,
        m2.posted == m1.posted,
    ensures
        toss_spec(toss_spec(b, m1).0, m2) == (toss_spec(b, m1).0, -1i64),
{
    let b1 = toss_spec(b, m1).0;
    if row_key_taken(b.messages, m1.msgid_serial, m1.posted) {
        assert(b1 == b);
        assert(row_key_taken(b1.messages, m2.msgid_serial, m2.posted));
    } else {
        let n = b.messages.len() as int;
        assert(b1.messages[n].msgid_serial == m1.msgid_serial && b1.messages[n].posted
            == m1.posted);
        assert(row_key_taken(b1.messages, m2.msgid_serial, m2.posted));
    }
}

/// Seen-by set dedup: inserting two lists that are permutations of each
/// other, one after the other, yields one id, and the second insertion
/// changes nothing.
pub proof fn lemma_seenby_permutation(
    groups: Seq<Seq<NetNodePair>>,
    s1: Seq<NetNodePair>,
    s2: Seq<NetNodePair>,
)
    requires
        s1.to_multiset() == s2.to_multiset(),
        s1.len() > 0,
    ensures
        ({
            let (g1, id1) = seenby_id_spec(groups, Some(s1));
            seenby_id_spec(g1, Some(s2)) == (g1, id1)
        }),
{
    let leq = pair_leq_fn();
    lemma_pair_leq_total();
    s1.lemma_sort_by_ensures(leq);
    s2.lemma_sort_by_ensures(leq);
    lemma_sorted_unique(sort_pairs(s1), sort_pairs(s2), leq);
    vstd::seq_lib::to_multiset_len(s1);
    vstd::seq_lib::to_multiset_len(s2);
    let k = sort_pairs(s1);
    assert(sort_pairs(s2) =~= k);
    let i = find_row(groups, k);
    lemma_find_row_props(groups, k);
    if i < 0 {
        lemma_find_row_is(groups.push(k), k, groups.len() as int);
    }
}

/// Path sequence dedup: inserting two lists that differ (in content or in
/// order), one after the other, yields two distinct ids.
pub proof fn lemma_path_order_distinct(
    groups: Seq<Seq<NetNodePair>>,
    p1: Seq<NetNodePair>,
    p2: Seq<NetNodePair>,
)
    requires
        p1 != p2,
        p1.len() > 0,
        p2.len() > 0,
    ensures
        ({
            let (g1, id1) = path_id_spec(groups, Some(p1));
            let (g2, id2) = path_id_spec(g1, Some(p2));
            id1 != id2
        }),
{
    let i1 = find_row(groups, p1);
    lemma_find_row_props(groups, p1);
    if i1 >= 0 {
        let i2 = find_row(groups, p2);
        lemma_find_row_props(groups, p2);
        if i2 >= 0 {
            assert(groups[i1] == p1);
            assert(groups[i2] == p2);
            if i1 == i2 {
                assert(p1 == p2);
            }
        }
    } else {
        let g1 = groups.push(p1);
        let i2 = find_row(g1, p2);
        lemma_find_row_props(g1, p2);
        if i2 >= 0 {
            assert(g1[i2] == p2);
            if i2 == groups.len() {
                assert(g1[i2] == p1);
            }
        }
    }
}

// ---------------------------------------------------------------------------
// executable helpers
// ---------------------------------------------------------------------------

fn pair_le(a: NetNodePair, b: NetNodePair) -> (r: bool)
    ensures
        r == pair_leq(a, b),
{
    a.0 < b.0 || (a.0 == b.0 && a.1 <= b.1)
}

proof fn lemma_insert_multiset(s: Seq<NetNodePair>, k: int, x: NetNodePair)
    requires
        0 <= k <= s.len(),
    ensures
        s.insert(k, x).to_multiset() == s.push(x).to_multiset(),
{
    broadcast use vstd::seq_lib::group_to_multiset_ensures;
    broadcast use vstd::multiset::group_multiset_axioms;

    let a = s.subrange(0, k);
    let b = s.subrange(k, s.len() as int);
    assert(s.insert(k, x) =~= a + (seq![x] + b));
    assert(s =~= a + b);
    vstd::seq_lib::lemma_multiset_commutative(a, seq![x] + b);
    vstd::seq_lib::lemma_multiset_commutative(seq![x], b);
    vstd::seq_lib::lemma_multiset_commutative(a, b);
    assert(seq![x].to_multiset() == Multiset::<NetNodePair>::empty().insert(x)) by {
        assert(seq![x] =~= Seq::<NetNodePair>::empty().push(x));
    }
    assert(s.insert(k, x).to_multiset() =~= s.to_multiset().insert(x));
    assert(s.push(x).to_multiset() =~= s.to_multiset().insert(x));
}

/// Insertion sort by (net, node); the result is what `sort_pairs` names.
fn sort_pairs_exec(v: &Vec<NetNodePair>) -> (r: Vec<NetNodePair>)
    ensures
        r@ == sort_pairs(v@),
        r@.len() == v@.len(),
{
    broadcast use vstd::seq_lib::group_to_multiset_ensures;

    let ghost leq = pair_leq_fn();
    let mut out: Vec<NetNodePair> = Vec::new();
    let mut idx: usize = 0;
    proof {
        assert(v@.subrange(0, 0).to_multiset() =~= out@.to_multiset());
    }
    while idx < v.len()
        invariant
            idx <= v@.len(),
            leq == pair_leq_fn(),
            sorted_by(out@, leq),
            out@.to_multiset() == v@.subrange(0, idx as int).to_multiset(),
            out@.len() == idx,
        decreases v@.len() - idx,
    {
        let x = v[idx];
        let mut k: usize = 0;
        while k < out.len() && !pair_le(x, out[k])
            invariant
                k <= out@.len(),
                forall|j: int| 0 <= j < k ==> !pair_leq(x, out@[j]),
            decreases out@.len() - k,
        {
            k = k + 1;
        }
        let ghost old_out = out@;
        out.insert(k, x);
        proof {
            lemma_insert_multiset(old_out, k as int, x);
            old_out.insert_ensures(k as int, x);
            vstd::seq_lib::to_multiset_build(old_out, x);
            vstd::seq_lib::to_multiset_build(v@.subrange(0, idx as int), v@[idx as int]);
            assert(out@.to_multiset() == old_out.push(x).to_multiset());
            assert(old_out.push(x).to_multiset() == old_out.to_multiset().insert(x));
            assert(v@.subrange(0, idx + 1) =~= v@.subrange(0, idx as int).push(v@[idx as int]));
            assert(v@.subrange(0, idx as int).push(v@[idx as int]).to_multiset() == v@.subrange(
                0,
                idx as int,
            ).to_multiset().insert(v@[idx as int]));
            let nw = out@;
            assert forall|i1: int, j1: int| 0 <= i1 < j1 < nw.len() implies #[trigger] leq(
                nw[i1],
                nw[j1],
            ) by {
                let ki = k as int;
                if j1 < ki {
                    assert(leq(old_out[i1], old_out[j1]));
                } else if i1 < ki && j1 == ki {
                    assert(!pair_leq(x, old_out[i1]));
                } else if i1 < ki && j1 > ki {
                    assert(leq(old_out[i1], old_out[j1 - 1]));
                } else if i1 == ki && j1 > ki {
                    assert(pair_leq(x, old_out[ki]));
                    if ki < j1 - 1 {
                        assert(leq(old_out[ki], old_out[j1 - 1]));
                    }
                } else {
                    assert(leq(old_out[i1 - 1], old_out[j1 - 1]));
                }
            }
        }
        idx = idx + 1;
    }
    proof {
        lemma_pair_leq_total();
        assert(v@.subrange(0, v@.len() as int) =~= v@);
        v@.lemma_sort_by_ensures(leq);
        lemma_sorted_unique(out@, sort_pairs(v@), leq);
        assert(out@ =~= sort_pairs(v@));
    }
    out
}

fn pair_vec_eq(a: &Vec<NetNodePair>, b: &Vec<NetNodePair>) -> (r: bool)
    ensures
        r == (a@ == b@),
{
    if a.len() != b.len() {
        return false;
    }
    let mut i: usize = 0;
    while i < a.len()
        invariant
            i <= a@.len(),
            a@.len() == b@.len(),
            forall|j: int| 0 <= j < i ==> a@[j] == b@[j],
        decreases a@.len() - i,
    {
        if !(a[i].0 == b[i].0 && a[i].1 == b[i].1) {
            return false;
        }
        i = i + 1;
    }
    proof {
        assert(a@ =~= b@);
    }
    true
}

/// Get-or-insert into one of the trimmed-text tables.
fn text_table_id(table: &mut Vec<String>, text: &str) -> (r: usize)
    ensures
        (final(table).deep_view(), r as int) == text_id_spec(old(table).deep_view(), text@),
{
    let tw = trim_ws_str(text);
    if tw.unicode_len() == 0 {
        return 0;
    }
    let t = trim_sp_str(text);
    let ghost tv = trim_sp(text@);
    let mut i: usize = 0;
    while i < table.len()
        invariant
            i <= table@.len(),
            tv == trim_sp(text@),
            trim_ws(text@).len() > 0,
            t@ == tv,
            table == old(table),
            forall|j: int| 0 <= j < i ==> table.deep_view()[j] != tv,
        decreases table@.len() - i,
    {
        let te: &String = &table[i];
        if crate::util::str_eq(te.as_str(), t) {
            proof {
                assert(table.deep_view()[i as int] == tv);
                lemma_find_row_is(table.deep_view(), tv, i as int);
            }
            return i + 1;
        }
        proof {
            assert(table.deep_view()[i as int] == table@[i as int]@);
        }
        i = i + 1;
    }
    proof {
        lemma_find_row_none(table.deep_view(), tv);
    }
    let ghost before = table.deep_view();
    table.push(t.to_owned());
    proof {
        assert(table.deep_view() =~= before.push(tv));
    }
    table.len()
}

fn user_row_eq(a: &UserRow, b: &UserRow) -> (r: bool)
    ensures
        r == (a.deep_view() == b.deep_view()),
{
    let same = crate::util::str_eq(a.name.as_str(), b.name.as_str()) && a.zone == b.zone && a.net
        == b.net && a.node == b.node && a.point == b.point && crate::util::str_eq(
        a.domain.as_str(),
        b.domain.as_str(),
    ) && crate::util::str_eq(a.foreign_address.as_str(), b.foreign_address.as_str());
    proof {
        if same {
            assert(a.deep_view() == b.deep_view());
        }
    }
    same
}

/// The canonical row a message endpoint dedups under.
fn canon_user_row(user: &User) -> (r: UserRow)
    ensures
        r.deep_view() == user_row_of(user@),
{
    let name_t = trim_sp_str(user.name.as_str());
    let name: String = if name_t.unicode_len() == 0 {
        String::from_str("<empty>")
    } else {
        name_t.to_owned()
    };
    let domain: String = match &user.addr.domain {
        Some(d) => trim_sp_str(d.as_str()).to_owned(),
        None => String::new(),
    };
    let foreign_address: String = match &user.ext_addr {
        Some(d) => trim_sp_str(d.as_str()).to_owned(),
        None => String::new(),
    };
    UserRow {
        name,
        zone: user.addr.zone,
        net: user.addr.net,
        node: user.addr.node,
        point: user.addr.point,
        domain,
        foreign_address,
    }
}

fn find_reply_from_exec(
    messages: &Vec<MessageRow>,
    users: &Vec<UserRow>,
    reply: u32,
    to_name: &str,
) -> (r: usize)
    ensures
        r as int == find_reply_from(
            messages.deep_view(),
            users.deep_view(),
            reply,
            trim_sp(to_name@),
        ),
{
    let name = trim_sp_str(to_name);
    let ghost mv = messages.deep_view();
    let ghost uv = users.deep_view();
    proof {
        assert(mv.subrange(0, mv.len() as int) =~= mv);
    }
    let mut i: usize = 0;
    while i < messages.len()
        invariant
            i <= messages@.len(),
            mv == messages.deep_view(),
            uv == users.deep_view(),
            name@ == trim_sp(to_name@),
            mv.len() == messages@.len(),
            uv.len() == users@.len(),
            find_reply_from(mv, uv, reply, name@) == find_reply_from(
                mv.subrange(i as int, mv.len() as int),
                uv,
                reply,
                name@,
            ),
        decreases messages@.len() - i,
    {
        let ghost rest = mv.subrange(i as int, mv.len() as int);
        proof {
            assert(rest[0] == mv[i as int]);
            assert(mv[i as int] == messages@[i as int].deep_view());
        }
        let serial_here = messages[i].msgid_serial;
        let fid = messages[i].from_id;
        if serial_here == reply && 1 <= fid && fid <= users.len() {
            proof {
                assert(uv[fid - 1] == users@[fid - 1].deep_view());
            }
            let u: &UserRow = &users[fid - 1];
            if crate::util::str_eq(u.name.as_str(), name) {
                return fid;
            }
        }
        proof {
            assert(rest.drop_first() =~= mv.subrange(i + 1, mv.len() as int));
        }
        i = i + 1;
    }
    proof {
        assert(mv.subrange(i as int, mv.len() as int).len() == 0);
    }
    0
}

/// Append one (message id, kludge) row per custom kludge, in order.
fn append_kludges(klu: &mut Vec<(i64, String)>, mid: i64, ks: &Vec<String>)
    ensures
        final(klu).deep_view() == old(klu).deep_view() + ks.deep_view().map_values(
            |k: Seq<char>| (mid, k),
        ),
{
    let ghost mapped = ks.deep_view().map_values(|k: Seq<char>| (mid, k));
    let mut c: usize = 0;
    proof {
        assert(klu.deep_view() =~= old(klu).deep_view() + mapped.subrange(0, 0));
    }
    while c < ks.len()
        invariant
            c <= ks@.len(),
            mapped == ks.deep_view().map_values(|k: Seq<char>| (mid, k)),
            mapped.len() == ks@.len(),
            klu.deep_view() =~= old(klu).deep_view() + mapped.subrange(0, c as int),
        decreases ks@.len() - c,
    {
        let ghost before = klu.deep_view();
        let kl: &String = &ks[c];
        klu.push((mid, kl.clone()));
        proof {
            assert(klu.deep_view() =~= before.push((mid, ks@[c as int]@)));
            assert(ks.deep_view()[c as int] == ks@[c as int]@);
            assert(mapped[c as int] == (mid, ks@[c as int]@));
            assert(mapped.subrange(0, c + 1) =~= mapped.subrange(0, c as int).push(
                mapped[c as int],
            ));
        }
        c = c + 1;
    }
    proof {
        assert(mapped.subrange(0, c as int) =~= mapped);
    }
}

// ---------------------------------------------------------------------------
// the base's methods
// ---------------------------------------------------------------------------

impl MessageBase {
    /// A fresh, empty base.
    pub fn open() -> (r: MessageBase)
        ensures
            r@ == empty_base(),
            base_wf(r@),
    {
        let r = MessageBase {
            users: Vec::new(),
            subjects: Vec::new(),
            software: Vec::new(),
            tear_lines: Vec::new(),
            origins: Vec::new(),
            seen_bys: Vec::new(),
            paths: Vec::new(),
            messages: Vec::new(),
            kludges: Vec::new(),
        };
        proof {
            assert(r.users.deep_view() =~= Seq::<UserRowV>::empty());
            assert(r.subjects.deep_view() =~= Seq::<Seq<char>>::empty());
            assert(r.software.deep_view() =~= Seq::<Seq<char>>::empty());
            assert(r.tear_lines.deep_view() =~= Seq::<Seq<char>>::empty());
            assert(r.origins.deep_view() =~= Seq::<Seq<char>>::empty());
            assert(r.seen_bys.deep_view() =~= Seq::<Seq<NetNodePair>>::empty());
            assert(r.paths.deep_view() =~= Seq::<Seq<NetNodePair>>::empty());
            assert(r.messages.deep_view() =~= Seq::<MessageRowV>::empty());
            assert(r.kludges.deep_view() =~= Seq::<(i64, Seq<char>)>::empty());
        }
        r
    }

    pub fn get_subj_id(&mut self, subj: &str) -> (r: usize)
        ensures
            (final(self)@.subjects, r as int) == text_id_spec(old(self)@.subjects, subj@),
            final(self)@ == (BaseV { subjects: final(self)@.subjects, ..old(self)@ }),
    {
        text_table_id(&mut self.subjects, subj)
    }

    pub fn get_software_id(&mut self, name: &str) -> (r: usize)
        ensures
            (final(self)@.software, r as int) == text_id_spec(old(self)@.software, name@),
            final(self)@ == (BaseV { software: final(self)@.software, ..old(self)@ }),
    {
        text_table_id(&mut self.software, name)
    }

    pub fn get_tear_line_id(&mut self, tl: &str) -> (r: usize)
        ensures
            (final(self)@.tear_lines, r as int) == text_id_spec(old(self)@.tear_lines, tl@),
            final(self)@ == (BaseV { tear_lines: final(self)@.tear_lines, ..old(self)@ }),
    {
        text_table_id(&mut self.tear_lines, tl)
    }

    pub fn get_origin_id(&mut self, origin: &str) -> (r: usize)
        ensures
            (final(self)@.origins, r as int) == text_id_spec(old(self)@.origins, origin@),
            final(self)@ == (BaseV { origins: final(self)@.origins, ..old(self)@ }),
    {
        text_table_id(&mut self.origins, origin)
    }

    pub fn get_user_id(&mut self, user: &User) -> (r: usize)
        ensures
            (final(self)@.users, r as int) == user_id_spec(old(self)@.users, user@),
            final(self)@ == (BaseV { users: final(self)@.users, ..old(self)@ }),
    {
        let row = canon_user_row(user);
        let ghost rv = user_row_of(user@);
        let mut i: usize = 0;
        while i < self.users.len()
            invariant
                i <= self.users@.len(),
                rv == user_row_of(user@),
                row.deep_view() == rv,
                forall|j: int| 0 <= j < i ==> self.users.deep_view()[j] != rv,
                self == old(self),
            decreases self.users@.len() - i,
        {
            if user_row_eq(&self.users[i], &row) {
                proof {
                    assert(self.users.deep_view()[i as int] == rv);
                    lemma_find_row_is(self.users.deep_view(), rv, i as int);
                }
                return i + 1;
            }
            proof {
                assert(self.users.deep_view()[i as int] == self.users@[i as int].deep_view());
            }
            i = i + 1;
        }
        proof {
            lemma_find_row_none(self.users.deep_view(), rv);
        }
        let ghost before = self.users.deep_view();
        self.users.push(row);
        proof {
            assert(self.users.deep_view() =~= before.push(rv));
        }
        self.users.len()
    }

    pub fn get_seenby_id(&mut self, seen_by: &Option<Vec<NetNodePair>>) -> (r: usize)
        ensures
            (final(self)@.seen_bys, r as int) == seenby_id_spec(
                old(self)@.seen_bys,
                view_opt_pairs(*seen_by),
            ),
            final(self)@ == (BaseV { seen_bys: final(self)@.seen_bys, ..old(self)@ }),
    {
        let ps = match seen_by {
            None => {
                return 0;
            }
            Some(v) => v,
        };
        if ps.len() == 0 {
            return 0;
        }
        let key = sort_pairs_exec(ps);
        let ghost kv = key@;
        let mut i: usize = 0;
        while i < self.seen_bys.len()
            invariant
                i <= self.seen_bys@.len(),
                kv == key@,
                forall|j: int| 0 <= j < i ==> self.seen_bys.deep_view()[j] != kv,
                self == old(self),
                key@ == sort_pairs(ps@),
                view_opt_pairs(*seen_by) == Some(ps@),
                ps@.len() > 0,
            decreases self.seen_bys@.len() - i,
        {
            if pair_vec_eq(&self.seen_bys[i], &key) {
                proof {
                    assert(self.seen_bys.deep_view()[i as int] =~= self.seen_bys@[i as int]@);
                    lemma_find_row_is(self.seen_bys.deep_view(), kv, i as int);
                }
                return i + 1;
            }
            proof {
                assert(self.seen_bys.deep_view()[i as int] =~= self.seen_bys@[i as int]@);
            }
            i = i + 1;
        }
        proof {
            lemma_find_row_none(self.seen_bys.deep_view(), kv);
        }
        let ghost before = self.seen_bys.deep_view();
        self.seen_bys.push(key);
        proof {
            assert(self.seen_bys.deep_view() =~~= before.push(kv));
        }
        self.seen_bys.len()
    }

    pub fn get_path_id(&mut self, path: &Option<Vec<NetNodePair>>) -> (r: usize)
        ensures
            (final(self)@.paths, r as int) == path_id_spec(old(self)@.paths, view_opt_pairs(*path)),
            final(self)@ == (BaseV { paths: final(self)@.paths, ..old(self)@ }),
    {
        let ps = match path {
            None => {
                return 0;
            }
            Some(v) => v,
        };
        if ps.len() == 0 {
            return 0;
        }
        // a path keeps its order; copy it as given
        let mut key: Vec<NetNodePair> = Vec::new();
        let mut c: usize = 0;
        while c < ps.len()
            invariant
                c <= ps@.len(),
                key@ == ps@.subrange(0, c as int),
            decreases ps@.len() - c,
        {
            key.push(ps[c]);
            proof {
                assert(ps@.subrange(0, c + 1) =~= ps@.subrange(0, c as int).push(ps@[c as int]));
            }
            c = c + 1;
        }
        proof {
            assert(ps@.subrange(0, ps@.len() as int) =~= ps@);
        }
        let ghost kv = key@;
        let mut i: usize = 0;
        while i < self.paths.len()
            invariant
                i <= self.paths@.len(),
                kv == key@,
                key@ == ps@,
                forall|j: int| 0 <= j < i ==> self.paths.deep_view()[j] != kv,
                self == old(self),
                view_opt_pairs(*path) == Some(ps@),
                ps@.len() > 0,
            decreases self.paths@.len() - i,
        {
            if pair_vec_eq(&self.paths[i], &key) {
                proof {
                    assert(self.paths.deep_view()[i as int] =~= self.paths@[i as int]@);
                    lemma_find_row_is(self.paths.deep_view(), kv, i as int);
                }
                return i + 1;
            }
            proof {
                assert(self.paths.deep_view()[i as int] =~= self.paths@[i as int]@);
            }
            i = i + 1;
        }
        proof {
            lemma_find_row_none(self.paths.deep_view(), kv);
        }
        let ghost before = self.paths.deep_view();
        self.paths.push(key);
        proof {
            assert(self.paths.deep_view() =~~= before.push(kv));
        }
        self.paths.len()
    }

    /// File one message: -1 and no change on a duplicate
    /// (msgid_serial, posted) key, else the new row's id.
    pub fn toss(&mut self, msg: &Message) -> (r: i64)
        ensures
            (final(self)@, r) == toss_spec(old(self)@, msg@),
            base_wf(old(self)@) ==> base_wf(final(self)@),
    {
        proof {
            if base_wf(old(self)@) {
                lemma_toss_preserves_wf(old(self)@, msg@);
            }
        }
        // the duplicate check
        let ghost mv0 = self.messages.deep_view();
        let mut i: usize = 0;
        while i < self.messages.len()
            invariant
                i <= self.messages@.len(),
                mv0 == self.messages.deep_view(),
                mv0.len() == self.messages@.len(),
                self == old(self),
                forall|j: int|
                    #![trigger mv0[j]]
                    0 <= j < i ==> !(mv0[j].msgid_serial == msg.msgid_serial && mv0[j].posted
                        == msg.posted),
            decreases self.messages@.len() - i,
        {
            proof {
                assert(mv0[i as int] == self.messages@[i as int].deep_view());
            }
            let same = self.messages[i].msgid_serial == msg.msgid_serial && self.messages[i].posted
                == msg.posted;
            if same {
                proof {
                    assert(mv0[i as int].msgid_serial == msg.msgid_serial && mv0[i as int].posted
                        == msg.posted);
                    assert(row_key_taken(mv0, msg.msgid_serial, msg.posted));
                }
                return -1;
            }
            i = i + 1;
        }
        proof {
            assert(!row_key_taken(mv0, msg.msgid_serial, msg.posted));
        }
        // deduplicate the related rows, in the fixed order
        let subj = self.get_subj_id(msg.subj.as_str());
        let from = self.get_user_id(&msg.from);
        let rf: usize = match msg.reply_serial {
            Some(rs) => find_reply_from_exec(&self.messages, &self.users, rs, msg.to.name.as_str()),
            None => 0,
        };
        let to: usize = if rf > 0 {
            rf
        } else {
            self.get_user_id(&msg.to)
        };
        let seen_id = self.get_seenby_id(&msg.kludges.seen_by);
        let path_id = self.get_path_id(&msg.kludges.path);
        let pid: usize = match &msg.kludges.pid {
            Some(p) => self.get_software_id(p.as_str()),
            None => 0,
        };
        let tid: usize = match &msg.kludges.tid {
            Some(t) => self.get_software_id(t.as_str()),
            None => 0,
        };
        let tear = self.get_tear_line_id(msg.tear_line.as_str());
        let orig = self.get_origin_id(msg.origin.as_str());
        // the message row itself
        let row = MessageRow {
            posted: msg.posted,
            tzutc: match &msg.kludges.tzutc {
                Some(t) => trim_sp_str(t.as_str()).to_owned(),
                None => String::new(),
            },
            msgid_serial: msg.msgid_serial,
            reply_serial: match msg.reply_serial {
                Some(r0) => r0,
                None => 0,
            },
            msgid_address: match &msg.msgid_addr {
                Some(a) => trim_sp_str(a.as_str()).to_owned(),
                None => String::new(),
            },
            reply_address: match &msg.reply_addr {
                Some(a) => trim_sp_str(a.as_str()).to_owned(),
                None => String::new(),
            },
            from_id: from,
            to_id: to,
            flags: msg.flags,
            subject_id: subj,
            body: msg.body.clone(),
            tear_line_id: tear,
            origin_id: orig,
            pid_id: pid,
            tid_id: tid,
            seen_by_id: seen_id,
            path_id: path_id,
        };
        let ghost rowv = row.deep_view();
        let ghost before_msgs = self.messages.deep_view();
        self.messages.push(row);
        proof {
            assert(self.messages.deep_view() =~= before_msgs.push(rowv));
        }
        let mid: i64 = #[verifier::truncate] (self.messages.len() as i64);
        // ordered custom kludges, one row each
        match &msg.kludges.custom {
            Some(ks) => {
                append_kludges(&mut self.kludges, mid, ks);
            }
            None => {}
        }
        mid
    }
}

} // verus!
