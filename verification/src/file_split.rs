use vstd::prelude::*;

use crate::clock::{
    Timestamp, dec, digit_char, digit_val, is_digit, is_older_than, file_stamp, lemma_dec2_value,
    lemma_dec4_value, lemma_dec_front, lemma_dec_is_digits, lemma_dec_len, lemma_dec_mod,
    lemma_pow10_pos, pow10, push_file_stamp,
};
use crate::error::LogError;
use crate::appender::{Command, FastLogRecord, RecordView};

verus! {

/// Lexicographic (code-point) order on character sequences; this is the order
/// in which snapshot file names sort, and it agrees with the order of the
/// embedded timestamps because those are zero-padded and fixed-width.
pub open spec fn lex_lt(a: Seq<char>, b: Seq<char>) -> bool
    decreases a.len(),
{
    if b.len() == 0 {
        false
    } else if a.len() == 0 {
        true
    } else if a[0] != b[0] {
        (a[0] as u32) < (b[0] as u32)
    } else {
        lex_lt(a.drop_first(), b.drop_first())
    }
}

/// `lex_lt` lifted to owned strings.
pub open spec fn name_lt(a: String, b: String) -> bool {
    lex_lt(a@, b@)
}

/// Descending order: every element is at least as large as its successor.
pub open spec fn sorted_desc(s: Seq<String>) -> bool
    decreases s.len(),
{
    s.len() <= 1 || (!name_lt(s[0], s[1]) && sorted_desc(s.drop_first()))
}

/// Inserts `x` into a descending-sorted sequence, keeping earlier equal or
/// larger elements in front of it.
pub open spec fn insert_desc(x: String, s: Seq<String>) -> Seq<String>
    decreases s.len(),
{
    if s.len() == 0 {
        seq![x]
    } else if !name_lt(s[0], x) {
        seq![s[0]] + insert_desc(x, s.drop_first())
    } else {
        seq![x] + s
    }
}

/// Insertion sort into descending order (newest snapshot name first).
pub open spec fn sort_desc(s: Seq<String>) -> Seq<String>
    decreases s.len(),
{
    if s.len() == 0 {
        s
    } else {
        insert_desc(s[0], sort_desc(s.drop_first()))
    }
}

pub proof fn lemma_insert_desc_len(x: String, s: Seq<String>)
    ensures
        insert_desc(x, s).len() == s.len() + 1,
    decreases s.len(),
{
    if s.len() > 0 && !name_lt(s[0], x) {
        lemma_insert_desc_len(x, s.drop_first());
    }
}

pub proof fn lemma_sort_desc_len(s: Seq<String>)
    ensures
        sort_desc(s).len() == s.len(),
    decreases s.len(),
{
    if s.len() > 0 {
        lemma_sort_desc_len(s.drop_first());
        lemma_insert_desc_len(s[0], sort_desc(s.drop_first()));
    }
}

pub proof fn lemma_insert_desc_contains(x: String, s: Seq<String>, y: String)
    ensures
        insert_desc(x, s).contains(y) <==> (y == x || s.contains(y)),
    decreases s.len(),
{
    if s.len() == 0 {
        assert(insert_desc(x, s) == seq![x]);
        assert(insert_desc(x, s).contains(y) <==> y == x) by {
            if y == x {
                assert(insert_desc(x, s)[0] == x);
            }
        }
    } else if !name_lt(s[0], x) {
        lemma_insert_desc_contains(x, s.drop_first(), y);
        let t = seq![s[0]] + insert_desc(x, s.drop_first());
        assert(insert_desc(x, s) == t);
        if t.contains(y) {
            let i = choose|i: int| 0 <= i < t.len() && t[i] == y;
            if i == 0 {
                assert(s[0] == y);
                assert(s.contains(y)) by {
                    assert(s[0] == y);
                }
            } else {
                assert(insert_desc(x, s.drop_first())[i - 1] == y);
                assert(insert_desc(x, s.drop_first()).contains(y));
                if s.drop_first().contains(y) {
                    let j = choose|j: int| 0 <= j < s.drop_first().len() && s.drop_first()[j] == y;
                    assert(s[j + 1] == y);
                }
            }
        }
        if y == x {
            assert(insert_desc(x, s.drop_first()).contains(y));
            let i = choose|i: int|
                0 <= i < insert_desc(x, s.drop_first()).len() && insert_desc(x, s.drop_first())[i]
                    == y;
            assert(t[i + 1] == y);
        }
        if s.contains(y) {
            let i = choose|i: int| 0 <= i < s.len() && s[i] == y;
            if i == 0 {
                assert(t[0] == y);
            } else {
                assert(s.drop_first()[i - 1] == y);
                assert(s.drop_first().contains(y));
                assert(insert_desc(x, s.drop_first()).contains(y));
                let j = choose|j: int|
                    0 <= j < insert_desc(x, s.drop_first()).len() && insert_desc(
                        x,
                        s.drop_first(),
                    )[j] == y;
                assert(t[j + 1] == y);
            }
        }
    } else {
        let t = seq![x] + s;
        assert(insert_desc(x, s) == t);
        if t.contains(y) {
            let i = choose|i: int| 0 <= i < t.len() && t[i] == y;
            if i > 0 {
                assert(s[i - 1] == y);
            }
        }
        if y == x {
            assert(t[0] == y);
        }
        if s.contains(y) {
            let i = choose|i: int| 0 <= i < s.len() && s[i] == y;
            assert(t[i + 1] == y);
        }
    }
}

pub proof fn lemma_sort_desc_contains(s: Seq<String>, y: String)
    ensures
        sort_desc(s).contains(y) <==> s.contains(y),
    decreases s.len(),
{
    if s.len() > 0 {
        lemma_sort_desc_contains(s.drop_first(), y);
        lemma_insert_desc_contains(s[0], sort_desc(s.drop_first()), y);
        if s.contains(y) {
            let i = choose|i: int| 0 <= i < s.len() && s[i] == y;
            if i > 0 {
                assert(s.drop_first()[i - 1] == y);
                assert(s.drop_first().contains(y));
            }
        }
        if s.drop_first().contains(y) {
            let i = choose|i: int| 0 <= i < s.drop_first().len() && s.drop_first()[i] == y;
            assert(s[i + 1] == y);
        }
    }
}

fn str_lex_lt_from(a: &str, b: &str, i: usize) -> (r: bool)
    requires
        i <= a@.len(),
        i <= b@.len(),
    ensures
        r == lex_lt(a@.skip(i as int), b@.skip(i as int)),
    decreases a@.len() - i,
{
    let alen = a.unicode_len();
    let blen = b.unicode_len();
    if i == blen {
        false
    } else if i == alen {
        true
    } else {
        let ca = a.get_char(i);
        let cb = b.get_char(i);
        if ca != cb {
            (ca as u32) < (cb as u32)
        } else {
            let r = str_lex_lt_from(a, b, i + 1);
            proof {
                assert(a@.skip(i as int).drop_first() =~= a@.skip(i + 1));
                assert(b@.skip(i as int).drop_first() =~= b@.skip(i + 1));
                assert(a@.skip(i as int)[0] == a@[i as int]);
                assert(b@.skip(i as int)[0] == b@[i as int]);
            }
            r
        }
    }
}

/// Decides `lex_lt` on two strings.
pub fn str_lex_lt(a: &String, b: &String) -> (r: bool)
    ensures
        r == name_lt(*a, *b),
{
    let r = str_lex_lt_from(a.as_str(), b.as_str(), 0);
    proof {
        assert(a@.skip(0) =~= a@);
        assert(b@.skip(0) =~= b@);
    }
    r
}

fn insert_sorted(v: Vec<String>, x: String) -> (r: Vec<String>)
    ensures
        r@ == insert_desc(x, v@),
    decreases v@.len(),
{
    let mut v = v;
    let ghost orig = v@;
    if v.len() == 0 {
        let mut r: Vec<String> = Vec::new();
        r.push(x);
        proof {
            assert(r@ =~= seq![x]);
        }
        r
    } else if !str_lex_lt(&v[0], &x) {
        let head = v.remove(0);
        proof {
            assert(v@ =~= orig.drop_first());
        }
        let ghost rest = v@;
        let mut r = insert_sorted(v, x);
        r.insert(0, head);
        proof {
            assert(r@ =~= seq![head] + insert_desc(x, rest));
        }
        r
    } else {
        v.insert(0, x);
        proof {
            assert(v@ =~= seq![x] + orig);
        }
        v
    }
}

/// Sorts snapshot names into descending order.
fn sort_names(names: Vec<String>) -> (r: Vec<String>)
    ensures
        r@ == sort_desc(names@),
{
    let mut names = names;
    let ghost orig = names@;
    let mut out: Vec<String> = Vec::new();
    proof {
        assert(orig.skip(orig.len() as int) =~= Seq::<String>::empty());
        assert(names@ =~= orig.take(names@.len() as int));
    }
    while names.len() > 0
        invariant
            names@.len() <= orig.len(),
            names@ == orig.take(names@.len() as int),
            out@ == sort_desc(orig.skip(names@.len() as int)),
        decreases names@.len(),
    {
        let ghost n = names@.len() as int;
        let x = names.pop().unwrap();
        proof {
            assert(orig.take(n)[n - 1] == orig[n - 1]);
            assert(names@ =~= orig.take(n - 1));
            let t = orig.skip(n - 1);
            assert(t[0] == orig[n - 1]);
            assert(t.drop_first() =~= orig.skip(n));
            assert(sort_desc(t) == insert_desc(orig[n - 1], sort_desc(orig.skip(n))));
        }
        out = insert_sorted(out, x);
    }
    proof {
        assert(orig.skip(0) =~= orig);
    }
    out
}

/// A directory entry takes part in retention when its name starts with
/// `temp` but is not the live file `temp.log` itself.
pub open spec fn is_candidate(name: Seq<char>) -> bool {
    &&& name.len() >= 4
    &&& name.subrange(0, 4) == seq!['t', 'e', 'm', 'p']
    &&& name != seq!['t', 'e', 'm', 'p', '.', 'l', 'o', 'g']
}

/// The retention candidates of a directory listing, in listing order.
pub open spec fn candidates(s: Seq<String>) -> Seq<String>
    decreases s.len(),
{
    if s.len() == 0 {
        Seq::empty()
    } else {
        candidates(s.drop_last()) + if is_candidate(s.last()@) {
            seq![s.last()]
        } else {
            Seq::empty()
        }
    }
}

fn is_candidate_name(name: &String) -> (r: bool)
    ensures
        r == is_candidate(name@),
{
    let s = name.as_str();
    let len = s.unicode_len();
    if len < 4 {
        return false;
    }
    if !(s.get_char(0) == 't' && s.get_char(1) == 'e' && s.get_char(2) == 'm' && s.get_char(3)
        == 'p') {
        proof {
            assert(name@.subrange(0, 4)[0] == name@[0]);
            assert(name@.subrange(0, 4)[1] == name@[1]);
            assert(name@.subrange(0, 4)[2] == name@[2]);
            assert(name@.subrange(0, 4)[3] == name@[3]);
        }
        return false;
    }
    proof {
        assert(name@.subrange(0, 4) =~= seq!['t', 'e', 'm', 'p']);
    }
    if len == 8 && s.get_char(4) == '.' && s.get_char(5) == 'l' && s.get_char(6) == 'o'
        && s.get_char(7) == 'g' {
        proof {
            assert(name@ =~= seq!['t', 'e', 'm', 'p', '.', 'l', 'o', 'g']);
        }
        false
    } else {
        proof {
            if name@ == seq!['t', 'e', 'm', 'p', '.', 'l', 'o', 'g'] {
                assert(name@[4] == '.' && name@[5] == 'l' && name@[6] == 'o' && name@[7] == 'g');
            }
        }
        true
    }
}

/// The segment of `s` before its first `.`, or all of `s` when it has none.
pub open spec fn trunc_at_dot(s: Seq<char>) -> Seq<char>
    decreases s.len(),
{
    if s.len() == 0 {
        s
    } else if s[0] == '.' {
        Seq::empty()
    } else {
        seq![s[0]] + trunc_at_dot(s.drop_first())
    }
}

proof fn lemma_trunc_at_dot(s: Seq<char>, i: int)
    requires
        0 <= i <= s.len(),
        forall|j: int| 0 <= j < i ==> s[j] != '.',
        i == s.len() || s[i] == '.',
    ensures
        trunc_at_dot(s) == s.take(i),
    decreases i,
{
    if i == 0 {
        assert(trunc_at_dot(s) =~= s.take(0));
    } else {
        lemma_trunc_at_dot(s.drop_first(), i - 1);
        assert(seq![s[0]] + s.drop_first().take(i - 1) =~= s.take(i));
    }
}

/// The numeric fields spelled at the fixed positions of a
/// `YYYY_MM_DDTHH_MM_SS` segment.
pub open spec fn stamp_of(s: Seq<char>) -> Timestamp {
    Timestamp {
        year: (digit_val(s[0]) * 1000 + digit_val(s[1]) * 100 + digit_val(s[2]) * 10 + digit_val(
            s[3],
        )) as u32,
        month: (digit_val(s[5]) * 10 + digit_val(s[6])) as u32,
        day: (digit_val(s[8]) * 10 + digit_val(s[9])) as u32,
        hour: (digit_val(s[11]) * 10 + digit_val(s[12])) as u32,
        minute: (digit_val(s[14]) * 10 + digit_val(s[15])) as u32,
        second: (digit_val(s[17]) * 10 + digit_val(s[18])) as u32,
        micros: 0,
    }
}

/// Whether a segment is a well-formed `YYYY_MM_DDTHH_MM_SS` timestamp whose
/// fields name a real instant: each field in range and the day one its month
/// has. A day the month lacks, a 60th second (a leap second), and years
/// before 1970 all count as unparseable, so such snapshots are never pruned
/// by age.
pub open spec fn parses(s: Seq<char>) -> bool {
    &&& s.len() == 19
    &&& is_digit(s[0]) && is_digit(s[1]) && is_digit(s[2]) && is_digit(s[3])
    &&& s[4] == '_'
    &&& is_digit(s[5]) && is_digit(s[6])
    &&& s[7] == '_'
    &&& is_digit(s[8]) && is_digit(s[9])
    &&& s[10] == 'T'
    &&& is_digit(s[11]) && is_digit(s[12])
    &&& s[13] == '_'
    &&& is_digit(s[14]) && is_digit(s[15])
    &&& s[16] == '_'
    &&& is_digit(s[17]) && is_digit(s[18])
    &&& stamp_of(s).calendar_valid()
}

/// The timestamp embedded in a snapshot file name: the name must start with
/// `temp`, and what stands between that prefix and the first `.` must parse.
pub open spec fn name_stamp(name: Seq<char>) -> Option<Timestamp> {
    if name.len() >= 4 && name.subrange(0, 4) == seq!['t', 'e', 'm', 'p'] && parses(
        trunc_at_dot(name.skip(4)),
    ) {
        Some(stamp_of(trunc_at_dot(name.skip(4))))
    } else {
        None
    }
}

fn char_digit(c: char) -> (r: u32)
    ensures
        is_digit(c) ==> r == digit_val(c),
        !is_digit(c) ==> r == 10,
{
    match c {
        '0' => 0,
        '1' => 1,
        '2' => 2,
        '3' => 3,
        '4' => 4,
        '5' => 5,
        '6' => 6,
        '7' => 7,
        '8' => 8,
        '9' => 9,
        _ => 10,
    }
}

/// The retention policy applied to rotated snapshots.
#[derive(Copy, Clone, PartialEq, Eq, Structural, Debug)]
pub enum RollingType {
    /// Keep every snapshot.
    All,
    /// Keep only snapshots younger than this many seconds.
    KeepTime(u64),
    /// Keep only this many snapshots, the newest ones.
    KeepNum(u64),
}

/// Whether a snapshot name carries a timestamp older than `now` minus `d`.
pub open spec fn is_expired(name: Seq<char>, now: Timestamp, d: int) -> bool {
    match name_stamp(name) {
        Some(t) => is_older_than(t, now, d),
        None => false,
    }
}

/// The subsequence of expired names, in order.
pub open spec fn expired_of(s: Seq<String>, now: Timestamp, d: int) -> Seq<String>
    decreases s.len(),
{
    if s.len() == 0 {
        s
    } else {
        expired_of(s.drop_last(), now, d) + if is_expired(s.last()@, now, d) {
            seq![s.last()]
        } else {
            Seq::empty()
        }
    }
}

/// What `KeepNum(n)` removes: everything past the `n` newest candidates.
pub open spec fn keep_num_removals(names: Seq<String>, n: int) -> Seq<String> {
    let sorted = sort_desc(candidates(names));
    if n < sorted.len() {
        sorted.skip(n)
    } else {
        Seq::empty()
    }
}

/// What `KeepTime(d)` removes: every candidate whose embedded timestamp is
/// more than `d` seconds before `now`.
pub open spec fn keep_time_removals(names: Seq<String>, now: Timestamp, d: int) -> Seq<String> {
    expired_of(sort_desc(candidates(names)), now, d)
}

fn timestamp_in_range(ts: &Timestamp) -> (b: bool)
    ensures
        b == ts.wf(),
{
    1970 <= ts.year && ts.year <= 9999 && 1 <= ts.month && ts.month <= 12 && 1 <= ts.day && ts.day
        <= 31 && ts.hour < 24 && ts.minute < 60 && ts.second < 60 && ts.micros < 1000000
}

impl RollingType {
    /// Reads the timestamp embedded in a snapshot file name, as retention
    /// compares ages: the text between the `temp` prefix and the first `.`
    /// must spell `YYYY_MM_DDTHH_MM_SS` naming a real instant. Deliberately
    /// unparseable, and therefore never pruned by age: a day its month does
    /// not have, a 60th second (a leap second), and years before 1970.
    pub fn file_name_parse_time(&self, name: &str) -> (r: Option<Timestamp>)
        ensures
            r == name_stamp(name@),
    {
        let len = name.unicode_len();
        if len < 4 {
            return None;
        }
        if !(name.get_char(0) == 't' && name.get_char(1) == 'e' && name.get_char(2) == 'm'
            && name.get_char(3) == 'p') {
            proof {
                assert(name@.subrange(0, 4)[0] == name@[0]);
                assert(name@.subrange(0, 4)[1] == name@[1]);
                assert(name@.subrange(0, 4)[2] == name@[2]);
                assert(name@.subrange(0, 4)[3] == name@[3]);
            }
            return None;
        }
        proof {
            assert(name@.subrange(0, 4) =~= seq!['t', 'e', 'm', 'p']);
        }
        let mut j: usize = 4;
        while j < len && name.get_char(j) != '.'
            invariant
                4 <= j <= len,
                len == name@.len(),
                forall|k: int| 4 <= k < j ==> name@[k] != '.',
            decreases len - j,
        {
            j += 1;
        }
        let ghost rest = name@.skip(4);
        proof {
            assert forall|k: int| 0 <= k < j - 4 implies rest[k] != '.' by {
                assert(rest[k] == name@[k + 4]);
            }
            assert(j - 4 == rest.len() || rest[j - 4] == '.') by {
                if j < len {
                    assert(rest[j - 4] == name@[j as int]);
                }
            }
            lemma_trunc_at_dot(rest, j - 4);
        }
        let ghost seg = trunc_at_dot(rest);
        if j - 4 != 19 {
            return None;
        }
        proof {
            assert forall|k: int| 0 <= k < 19 implies seg[k] == name@[k + 4] by {
                assert(seg[k] == rest.take(19)[k]);
                assert(rest[k] == name@[k + 4]);
            }
        }
        if !(name.get_char(8) == '_' && name.get_char(11) == '_' && name.get_char(14) == 'T'
            && name.get_char(17) == '_' && name.get_char(20) == '_') {
            return None;
        }
        let d0 = char_digit(name.get_char(4));
        let d1 = char_digit(name.get_char(5));
        let d2 = char_digit(name.get_char(6));
        let d3 = char_digit(name.get_char(7));
        let m0 = char_digit(name.get_char(9));
        let m1 = char_digit(name.get_char(10));
        let a0 = char_digit(name.get_char(12));
        let a1 = char_digit(name.get_char(13));
        let h0 = char_digit(name.get_char(15));
        let h1 = char_digit(name.get_char(16));
        let i0 = char_digit(name.get_char(18));
        let i1 = char_digit(name.get_char(19));
        let s0 = char_digit(name.get_char(21));
        let s1 = char_digit(name.get_char(22));
        if d0 > 9 || d1 > 9 || d2 > 9 || d3 > 9 || m0 > 9 || m1 > 9 || a0 > 9 || a1 > 9 || h0 > 9
            || h1 > 9 || i0 > 9 || i1 > 9 || s0 > 9 || s1 > 9 {
            return None;
        }
        let ts = Timestamp {
            year: d0 * 1000 + d1 * 100 + d2 * 10 + d3,
            month: m0 * 10 + m1,
            day: a0 * 10 + a1,
            hour: h0 * 10 + h1,
            minute: i0 * 10 + i1,
            second: s0 * 10 + s1,
            micros: 0,
        };
        proof {
            assert(stamp_of(seg) == ts);
        }
        if !timestamp_in_range(&ts) {
            return None;
        }
        if ts.day > crate::clock::month_days(ts.year, ts.month) {
            return None;
        }
        proof {
            assert(parses(seg));
        }
        Some(ts)
    }

    /// Filters a directory listing down to the retention candidates and sorts
    /// them newest-name first, as retention walks them.
    pub fn read_paths(&self, names: Vec<String>) -> (r: Vec<String>)
        ensures
            r@ == sort_desc(candidates(names@)),
    {
        let mut names = names;
        let ghost orig = names@;
        let mut cands: Vec<String> = Vec::new();
        let ghost i: int = 0;
        proof {
            assert(orig.take(0) =~= Seq::<String>::empty());
        }
        while names.len() > 0
            invariant
                0 <= i <= orig.len(),
                names@ == orig.skip(i),
                cands@ == candidates(orig.take(i)),
            decreases names@.len(),
        {
            let x = names.remove(0);
            proof {
                assert(orig.skip(i)[0] == orig[i]);
                assert(orig.skip(i).remove(0) =~= orig.skip(i + 1));
                let t = orig.take(i + 1);
                assert(t.drop_last() =~= orig.take(i));
                assert(t.last() == orig[i]);
            }
            if is_candidate_name(&x) {
                cands.push(x);
                proof {
                    assert(cands@ =~= candidates(orig.take(i)) + seq![orig[i]]);
                }
            } else {
                proof {
                    assert(cands@ =~= candidates(orig.take(i)) + Seq::<String>::empty());
                }
            }
            proof {
                i = i + 1;
            }
        }
        proof {
            assert(orig.take(i) =~= orig);
        }
        sort_names(cands)
    }

    /// Decides retention for one directory listing: returns exactly the names
    /// the policy removes. `All` removes nothing; `KeepNum(n)` removes all but
    /// the `n` newest candidates; `KeepTime(d)` removes every candidate whose
    /// embedded timestamp is more than `d` seconds before `now`.
    pub fn do_rolling(&self, names: Vec<String>, now: &Timestamp) -> (r: Vec<String>)
        requires
            now.wf(),
        ensures
            match *self {
                RollingType::All => r@ == Seq::<String>::empty(),
                RollingType::KeepNum(n) => r@ == keep_num_removals(names@, n as int),
                RollingType::KeepTime(d) => r@ == keep_time_removals(names@, *now, d as int),
            },
    {
        match self {
            RollingType::All => Vec::new(),
            RollingType::KeepNum(n) => {
                let n = *n;
                let mut sorted = self.read_paths(names);
                let ghost whole = sorted@;
                let mut removed: u64 = 0;
                while removed < n && sorted.len() > 0
                    invariant
                        0 <= removed <= whole.len(),
                        removed <= n,
                        sorted@ == whole.skip(removed as int),
                    decreases n - removed,
                {
                    proof {
                        assert(whole.skip(removed as int).remove(0) =~= whole.skip(
                            removed as int + 1,
                        ));
                    }
                    sorted.remove(0);
                    removed = removed + 1;
                }
                proof {
                    if removed == n {
                        assert(sorted@ == if n < whole.len() {
                            whole.skip(n as int)
                        } else {
                            whole.skip(whole.len() as int)
                        });
                        if !(n < whole.len()) {
                            assert(whole.skip(whole.len() as int) =~= Seq::<String>::empty());
                        }
                    } else {
                        assert(sorted@.len() == 0);
                        assert(sorted@ =~= Seq::<String>::empty());
                    }
                }
                sorted
            },
            RollingType::KeepTime(d) => {
                let d = *d;
                let mut sorted = self.read_paths(names);
                let ghost whole = sorted@;
                let mut out: Vec<String> = Vec::new();
                let ghost i: int = 0;
                proof {
                    assert(whole.take(0) =~= Seq::<String>::empty());
                }
                while sorted.len() > 0
                    invariant
                        0 <= i <= whole.len(),
                        now.wf(),
                        sorted@ == whole.skip(i),
                        out@ == expired_of(whole.take(i), *now, d as int),
                    decreases sorted@.len(),
                {
                    let x = sorted.remove(0);
                    proof {
                        assert(whole.skip(i)[0] == whole[i]);
                        assert(whole.skip(i).remove(0) =~= whole.skip(i + 1));
                        let t = whole.take(i + 1);
                        assert(t.drop_last() =~= whole.take(i));
                        assert(t.last() == whole[i]);
                    }
                    let expired = match self.file_name_parse_time(x.as_str()) {
                        Some(t) => crate::clock::older_than(&t, now, d),
                        None => false,
                    };
                    if expired {
                        out.push(x);
                        proof {
                            assert(out@ =~= expired_of(whole.take(i), *now, d as int) + seq![
                                whole[i],
                            ]);
                        }
                    } else {
                        proof {
                            assert(out@ =~= expired_of(whole.take(i), *now, d as int)
                                + Seq::<String>::empty());
                        }
                    }
                    proof {
                        i = i + 1;
                    }
                }
                proof {
                    assert(whole.take(i) =~= whole);
                }
                out
            },
        }
    }
}

/// Retention law: after `KeepNum(n)` removes what `do_rolling` names, at most
/// `n` candidates remain in the directory.
pub proof fn lemma_keep_num_bound(names: Seq<String>, n: int)
    requires
        n >= 0,
    ensures
        candidates(names).len() - keep_num_removals(names, n).len() <= n,
{
    lemma_sort_desc_len(candidates(names));
}

proof fn lemma_expired_of_complete(s: Seq<String>, now: Timestamp, d: int, x: String)
    requires
        s.contains(x),
        is_expired(x@, now, d),
    ensures
        expired_of(s, now, d).contains(x),
    decreases s.len(),
{
    let i = choose|i: int| 0 <= i < s.len() && s[i] == x;
    if i == s.len() - 1 {
        let pre = expired_of(s.drop_last(), now, d);
        assert(s.last() == x);
        assert(expired_of(s, now, d)[pre.len() as int] == x);
    } else {
        assert(s.drop_last()[i] == x);
        assert(s.drop_last().contains(x));
        lemma_expired_of_complete(s.drop_last(), now, d, x);
        let pre = expired_of(s.drop_last(), now, d);
        let j = choose|j: int| 0 <= j < pre.len() && pre[j] == x;
        assert(expired_of(s, now, d)[j] == x);
    }
}

proof fn lemma_expired_of_sound(s: Seq<String>, now: Timestamp, d: int, x: String)
    requires
        expired_of(s, now, d).contains(x),
    ensures
        s.contains(x) && is_expired(x@, now, d),
    decreases s.len(),
{
    let e = expired_of(s, now, d);
    let i = choose|i: int| 0 <= i < e.len() && e[i] == x;
    let pre = expired_of(s.drop_last(), now, d);
    if i < pre.len() {
        lemma_expired_of_sound(s.drop_last(), now, d, x);
        let j = choose|j: int| 0 <= j < s.drop_last().len() && s.drop_last()[j] == x;
        assert(s[j] == x);
    } else {
        assert(is_expired(s.last()@, now, d) && e[i] == s.last());
        assert(s[s.len() - 1] == x);
    }
}

/// Retention law: `KeepTime(d)` removes exactly the candidates whose embedded
/// timestamp lies more than `d` seconds before `now`.
pub proof fn lemma_keep_time_exact(names: Seq<String>, now: Timestamp, d: int, x: String)
    ensures
        keep_time_removals(names, now, d).contains(x) <==> (candidates(names).contains(x)
            && is_expired(x@, now, d)),
{
    lemma_sort_desc_contains(candidates(names), x);
    if keep_time_removals(names, now, d).contains(x) {
        lemma_expired_of_sound(sort_desc(candidates(names)), now, d, x);
    }
    if candidates(names).contains(x) && is_expired(x@, now, d) {
        lemma_expired_of_complete(sort_desc(candidates(names)), now, d, x);
    }
}

proof fn lemma_lex_asym(a: Seq<char>, b: Seq<char>)
    requires
        lex_lt(a, b),
    ensures
        !lex_lt(b, a),
    decreases a.len(),
{
    if a.len() > 0 && b.len() > 0 && a[0] == b[0] {
        lemma_lex_asym(a.drop_first(), b.drop_first());
    }
}

proof fn lemma_insert_desc_sorted(x: String, s: Seq<String>)
    requires
        sorted_desc(s),
    ensures
        sorted_desc(insert_desc(x, s)),
    decreases s.len(),
{
    if s.len() == 0 {
    } else if !name_lt(s[0], x) {
        lemma_insert_desc_sorted(x, s.drop_first());
        let t = seq![s[0]] + insert_desc(x, s.drop_first());
        lemma_insert_desc_len(x, s.drop_first());
        assert(t.drop_first() =~= insert_desc(x, s.drop_first()));
        if s.drop_first().len() == 0 {
            assert(t[1] == x);
        } else if !name_lt(s.drop_first()[0], x) {
            assert(t[1] == s.drop_first()[0]);
            assert(!name_lt(s[0], s[1]));
        } else {
            assert(t[1] == x);
        }
        assert(sorted_desc(t));
    } else {
        let t = seq![x] + s;
        lemma_lex_asym(s[0]@, x@);
        assert(t.drop_first() =~= s);
        assert(sorted_desc(t));
    }
}

/// The sort used by retention really is descending.
pub proof fn lemma_sort_desc_sorted(s: Seq<String>)
    ensures
        sorted_desc(sort_desc(s)),
    decreases s.len(),
{
    if s.len() > 0 {
        lemma_sort_desc_sorted(s.drop_first());
        lemma_insert_desc_sorted(s[0], sort_desc(s.drop_first()));
    }
}

proof fn lemma_lex_irrefl(a: Seq<char>)
    ensures
        !lex_lt(a, a),
    decreases a.len(),
{
    if a.len() > 0 {
        lemma_lex_irrefl(a.drop_first());
    }
}

proof fn lemma_lex_eq_prefix(p: Seq<char>, s1: Seq<char>, s2: Seq<char>)
    ensures
        lex_lt(p + s1, p + s2) == lex_lt(s1, s2),
    decreases p.len(),
{
    if p.len() == 0 {
        assert(p + s1 =~= s1);
        assert(p + s2 =~= s2);
    } else {
        let a = p + s1;
        let b = p + s2;
        assert(a[0] == p[0] && b[0] == p[0]);
        assert(a.drop_first() =~= p.drop_first() + s1);
        assert(b.drop_first() =~= p.drop_first() + s2);
        lemma_lex_eq_prefix(p.drop_first(), s1, s2);
    }
}

proof fn lemma_lex_concat_ne(x1: Seq<char>, x2: Seq<char>, r1: Seq<char>, r2: Seq<char>)
    requires
        x1.len() == x2.len(),
        x1 != x2,
    ensures
        lex_lt(x1 + r1, x2 + r2) == lex_lt(x1, x2),
    decreases x1.len(),
{
    if x1.len() == 0 {
        assert(x1 =~= x2);
    } else {
        let a = x1 + r1;
        let b = x2 + r2;
        assert(a[0] == x1[0] && b[0] == x2[0]);
        if x1[0] == x2[0] {
            assert(x1.drop_first() != x2.drop_first()) by {
                if x1.drop_first() == x2.drop_first() {
                    assert forall|i: int| 0 <= i < x1.len() implies x1[i] == x2[i] by {
                        if i > 0 {
                            assert(x1[i] == x1.drop_first()[i - 1]);
                            assert(x2[i] == x2.drop_first()[i - 1]);
                        }
                    }
                    assert(x1 =~= x2);
                }
            }
            assert(a.drop_first() =~= x1.drop_first() + r1);
            assert(b.drop_first() =~= x2.drop_first() + r2);
            lemma_lex_concat_ne(x1.drop_first(), x2.drop_first(), r1, r2);
        }
    }
}

proof fn lemma_dec_lex(v1: int, v2: int, w: nat)
    requires
        0 <= v1 < pow10(w),
        0 <= v2 < pow10(w),
    ensures
        lex_lt(dec(v1, w), dec(v2, w)) == (v1 < v2),
    decreases w,
{
    lemma_dec_len(v1, w);
    lemma_dec_len(v2, w);
    if w == 0 {
        assert(pow10(0) == 1);
        assert(dec(v1, 0) == Seq::<char>::empty());
        assert(dec(v2, 0) == Seq::<char>::empty());
        assert(!lex_lt(dec(v1, 0), dec(v2, 0)));
    } else {
        let p = pow10((w - 1) as nat);
        lemma_pow10_pos((w - 1) as nat);
        let t1 = v1 / p;
        let t2 = v2 / p;
        vstd::arithmetic::div_mod::lemma_fundamental_div_mod(v1, p);
        vstd::arithmetic::div_mod::lemma_fundamental_div_mod(v2, p);
        assert(0 <= t1 && 0 <= t2) by {
            vstd::arithmetic::div_mod::lemma_div_pos_is_pos(v1, p);
            vstd::arithmetic::div_mod::lemma_div_pos_is_pos(v2, p);
        }
        assert(t1 <= 9) by {
            if t1 >= 10 {
                vstd::arithmetic::mul::lemma_mul_inequality(10, t1, p);
            }
        }
        assert(t2 <= 9) by {
            if t2 >= 10 {
                vstd::arithmetic::mul::lemma_mul_inequality(10, t2, p);
            }
        }
        vstd::arithmetic::div_mod::lemma_small_mod(t1 as nat, 10);
        vstd::arithmetic::div_mod::lemma_small_mod(t2 as nat, 10);
        lemma_dec_front(v1, w);
        lemma_dec_front(v2, w);
        let a = dec(v1, w);
        let b = dec(v2, w);
        assert(a[0] == digit_char(t1) && b[0] == digit_char(t2));
        if t1 == t2 {
            assert(a.drop_first() =~= dec(v1, (w - 1) as nat));
            assert(b.drop_first() =~= dec(v2, (w - 1) as nat));
            lemma_dec_mod(v1, (w - 1) as nat);
            lemma_dec_mod(v2, (w - 1) as nat);
            lemma_dec_lex(v1 % p, v2 % p, (w - 1) as nat);
            assert(lex_lt(a, b) == lex_lt(a.drop_first(), b.drop_first()));
            assert(lex_lt(a, b) == (v1 % p < v2 % p));
            assert((v1 < v2) == (v1 % p < v2 % p));
        } else {
            assert(digit_char(t1) != digit_char(t2));
            assert(((digit_char(t1) as u32) < (digit_char(t2) as u32)) == (t1 < t2));
            let r1 = v1 % p;
            let r2 = v2 % p;
            if t1 < t2 {
                assert(v1 < v2) by (nonlinear_arith)
                    requires
                        t1 < t2,
                        v1 == p * t1 + r1,
                        v2 == p * t2 + r2,
                        0 <= r1 < p,
                        0 <= r2,
                        p >= 1,
                {}
            } else {
                assert(v2 < v1) by (nonlinear_arith)
                    requires
                        t2 < t1,
                        v1 == p * t1 + r1,
                        v2 == p * t2 + r2,
                        0 <= r2 < p,
                        0 <= r1,
                        p >= 1,
                {}
            }
            assert(lex_lt(a, b) == ((a[0] as u32) < (b[0] as u32)));
            assert(lex_lt(a, b) == (t1 < t2));
        }
    }
}

proof fn lemma_field_step(v1: int, v2: int, w: nat, r1: Seq<char>, r2: Seq<char>)
    requires
        0 <= v1 < pow10(w),
        0 <= v2 < pow10(w),
    ensures
        lex_lt(dec(v1, w) + r1, dec(v2, w) + r2) == if v1 == v2 {
            lex_lt(r1, r2)
        } else {
            v1 < v2
        },
{
    lemma_dec_len(v1, w);
    lemma_dec_len(v2, w);
    if v1 == v2 {
        lemma_lex_eq_prefix(dec(v1, w), r1, r2);
    } else {
        lemma_dec_lex(v1, v2, w);
        lemma_dec_lex(v2, v1, w);
        if dec(v1, w) == dec(v2, w) {
            lemma_lex_irrefl(dec(v1, w));
            assert(false);
        }
        lemma_lex_concat_ne(dec(v1, w), dec(v2, w), r1, r2);
    }
}

/// Time order on the calendar fields, most significant first.
pub open spec fn stamp_lt(a: Timestamp, b: Timestamp) -> bool {
    if a.year != b.year {
        a.year < b.year
    } else if a.month != b.month {
        a.month < b.month
    } else if a.day != b.day {
        a.day < b.day
    } else if a.hour != b.hour {
        a.hour < b.hour
    } else if a.minute != b.minute {
        a.minute < b.minute
    } else if a.second != b.second {
        a.second < b.second
    } else {
        a.micros < b.micros
    }
}

/// The names rotation writes sort exactly as the instants they embed: the
/// name order retention keeps is time order, newest name first.
#[verifier::rlimit(100)]
pub proof fn lemma_snapshot_name_order(a: Timestamp, b: Timestamp)
    requires
        a.wf(),
        b.wf(),
    ensures
        lex_lt(snapshot_name(a), snapshot_name(b)) == stamp_lt(a, b),
{
    assert(pow10(0) == 1);
    assert(pow10(1) == 10);
    assert(pow10(2) == 100);
    assert(pow10(3) == 1000);
    assert(pow10(4) == 10000);
    assert(pow10(5) == 100000);
    assert(pow10(6) == 1000000);
    let dot_log = seq!['.', 'l', 'o', 'g'];
    let ta5 = seq!['.'] + dec(a.micros as int, 6) + dot_log;
    let ta4 = seq!['_'] + dec(a.second as int, 2) + ta5;
    let ta3 = seq!['_'] + dec(a.minute as int, 2) + ta4;
    let ta2 = seq!['T'] + dec(a.hour as int, 2) + ta3;
    let ta1 = seq!['_'] + dec(a.day as int, 2) + ta2;
    let ta0 = seq!['_'] + dec(a.month as int, 2) + ta1;
    let tb5 = seq!['.'] + dec(b.micros as int, 6) + dot_log;
    let tb4 = seq!['_'] + dec(b.second as int, 2) + tb5;
    let tb3 = seq!['_'] + dec(b.minute as int, 2) + tb4;
    let tb2 = seq!['T'] + dec(b.hour as int, 2) + tb3;
    let tb1 = seq!['_'] + dec(b.day as int, 2) + tb2;
    let tb0 = seq!['_'] + dec(b.month as int, 2) + tb1;
    assert(snapshot_name(a) =~= seq!['t', 'e', 'm', 'p'] + (dec(a.year as int, 4) + ta0));
    assert(snapshot_name(b) =~= seq!['t', 'e', 'm', 'p'] + (dec(b.year as int, 4) + tb0));
    lemma_lex_eq_prefix(
        seq!['t', 'e', 'm', 'p'],
        dec(a.year as int, 4) + ta0,
        dec(b.year as int, 4) + tb0,
    );
    lemma_field_step(a.year as int, b.year as int, 4, ta0, tb0);
    if a.year == b.year {
        assert(ta0 =~= seq!['_'] + (dec(a.month as int, 2) + ta1));
        assert(tb0 =~= seq!['_'] + (dec(b.month as int, 2) + tb1));
        lemma_lex_eq_prefix(seq!['_'], dec(a.month as int, 2) + ta1, dec(b.month as int, 2) + tb1);
        lemma_field_step(a.month as int, b.month as int, 2, ta1, tb1);
        if a.month == b.month {
            assert(ta1 =~= seq!['_'] + (dec(a.day as int, 2) + ta2));
            assert(tb1 =~= seq!['_'] + (dec(b.day as int, 2) + tb2));
            lemma_lex_eq_prefix(seq!['_'], dec(a.day as int, 2) + ta2, dec(b.day as int, 2) + tb2);
            lemma_field_step(a.day as int, b.day as int, 2, ta2, tb2);
            if a.day == b.day {
                assert(ta2 =~= seq!['T'] + (dec(a.hour as int, 2) + ta3));
                assert(tb2 =~= seq!['T'] + (dec(b.hour as int, 2) + tb3));
                lemma_lex_eq_prefix(
                    seq!['T'],
                    dec(a.hour as int, 2) + ta3,
                    dec(b.hour as int, 2) + tb3,
                );
                lemma_field_step(a.hour as int, b.hour as int, 2, ta3, tb3);
                if a.hour == b.hour {
                    assert(ta3 =~= seq!['_'] + (dec(a.minute as int, 2) + ta4));
                    assert(tb3 =~= seq!['_'] + (dec(b.minute as int, 2) + tb4));
                    lemma_lex_eq_prefix(
                        seq!['_'],
                        dec(a.minute as int, 2) + ta4,
                        dec(b.minute as int, 2) + tb4,
                    );
                    lemma_field_step(a.minute as int, b.minute as int, 2, ta4, tb4);
                    if a.minute == b.minute {
                        assert(ta4 =~= seq!['_'] + (dec(a.second as int, 2) + ta5));
                        assert(tb4 =~= seq!['_'] + (dec(b.second as int, 2) + tb5));
                        lemma_lex_eq_prefix(
                            seq!['_'],
                            dec(a.second as int, 2) + ta5,
                            dec(b.second as int, 2) + tb5,
                        );
                        lemma_field_step(a.second as int, b.second as int, 2, ta5, tb5);
                        if a.second == b.second {
                            assert(ta5 =~= seq!['.'] + (dec(a.micros as int, 6) + dot_log));
                            assert(tb5 =~= seq!['.'] + (dec(b.micros as int, 6) + dot_log));
                            lemma_lex_eq_prefix(
                                seq!['.'],
                                dec(a.micros as int, 6) + dot_log,
                                dec(b.micros as int, 6) + dot_log,
                            );
                            lemma_field_step(a.micros as int, b.micros as int, 6, dot_log, dot_log);
                            if a.micros == b.micros {
                                lemma_lex_irrefl(dot_log);
                            }
                        }
                    }
                }
            }
        }
    }
}

/// One rotated snapshot handed to the packer thread, with everything the
/// saver needs: the directory, the retention policy and the snapshot path.
pub struct LogPack {
    pub dir: String,
    pub rolling: RollingType,
    pub new_log_name: String,
}

/// A pluggable transformer (typically a compressor) applied to each rotated
/// snapshot from the saver thread. Implementations open the snapshot path
/// themselves; returning `Ok(true)` asks the saver to delete the source.
pub trait Packer: Send {
    /// The artifact extension tag, such as `zip`.
    fn pack_name(&self) -> &'static str;

    /// Packs one snapshot; `Ok(true)` means the source file may be removed.
    fn do_pack(&self, log_file_path: &str) -> Result<bool, LogError>;

    /// How many additional attempts a failed pack is given.
    fn retry(&self) -> i32 {
        0
    }
}

/// The name rotation gives a snapshot: `temp<stamp>.log`.
pub open spec fn snapshot_name(ts: Timestamp) -> Seq<char> {
    seq!['t', 'e', 'm', 'p'] + file_stamp(ts) + seq!['.', 'l', 'o', 'g']
}

/// The state of the size-splitting file appender: how many bytes the live
/// `temp.log` holds and when to seal it into a snapshot.
pub struct FileSplitAppender {
    pub max_split_bytes: u64,
    pub dir_path: String,
    pub temp_bytes: u64,
    pub rolling_type: RollingType,
}

impl FileSplitAppender {
    /// Valid appender state: a split threshold above zero and a directory
    /// path that names a directory.
    pub open spec fn wf(self) -> bool {
        &&& self.max_split_bytes > 0
        &&& self.dir_path@.len() > 0
        &&& self.dir_path@.last() == '/'
    }

    /// Sets up the appender over a directory whose live file `temp.log`
    /// currently holds `initial_len` bytes (0 for a fresh directory).
    pub fn new(
        dir_path: String,
        max_split_bytes: u64,
        rolling_type: RollingType,
        initial_len: u64,
    ) -> (r: FileSplitAppender)
        requires
            max_split_bytes > 0,
            dir_path@.len() > 0,
            dir_path@.last() == '/',
        ensures
            r.wf(),
            r.max_split_bytes == max_split_bytes,
            r.dir_path@ == dir_path@,
            r.temp_bytes == initial_len,
            r.rolling_type == rolling_type,
    {
        FileSplitAppender { max_split_bytes, dir_path, temp_bytes: initial_len, rolling_type }
    }

    /// Rotation fires on an explicit flush or once the live file has reached
    /// the split threshold.
    pub open spec fn rotates_on(self, rec: RecordView) -> bool {
        rec.command == Command::CommandFlush || self.temp_bytes >= self.max_split_bytes
    }

    pub fn should_rotate(&self, record: &FastLogRecord) -> (b: bool)
        ensures
            b == self.rotates_on(record@),
    {
        record.command == Command::CommandFlush || self.temp_bytes >= self.max_split_bytes
    }

    /// Restarts the byte count of the live file after it was truncated.
    pub fn truncate(&mut self)
        ensures
            final(self).temp_bytes == 0,
            final(self).max_split_bytes == old(self).max_split_bytes,
            final(self).dir_path == old(self).dir_path,
            final(self).rolling_type == old(self).rolling_type,
    {
        self.temp_bytes = 0;
    }

    /// Accounts for bytes actually written to the live file (saturating, so a
    /// byte count near the limit still rotates rather than wrapping).
    pub fn record_written(&mut self, n: u64)
        ensures
            final(self).temp_bytes == if old(self).temp_bytes + n <= u64::MAX {
                old(self).temp_bytes + n
            } else {
                u64::MAX as int
            },
            final(self).max_split_bytes == old(self).max_split_bytes,
            final(self).dir_path == old(self).dir_path,
            final(self).rolling_type == old(self).rolling_type,
    {
        if n <= u64::MAX - self.temp_bytes {
            self.temp_bytes = self.temp_bytes + n;
        } else {
            self.temp_bytes = u64::MAX;
        }
    }

    /// Starts a rotation: composes the timestamped snapshot path and hands
    /// back the pack for the saver queue. The caller copies `temp.log` to
    /// that path; only once the copy succeeds does it truncate the live file,
    /// call `truncate` here, and forward the pack. On a failed copy it resets
    /// nothing, so the byte counter keeps matching the file, the rotation is
    /// aborted whole, and the next delivery rotates again.
    pub fn send_pack(&self, now: &Timestamp) -> (p: LogPack)
        ensures
            p.dir@ == self.dir_path@,
            p.rolling == self.rolling_type,
            p.new_log_name@ == self.dir_path@ + snapshot_name(*now),
    {
        let mut name = self.dir_path.clone();
        name.append("temp");
        push_file_stamp(&mut name, now);
        name.append(".log");
        proof {
            reveal_strlit("temp");
            reveal_strlit(".log");
            assert(name@ =~= self.dir_path@ + snapshot_name(*now));
        }
        LogPack { dir: self.dir_path.clone(), rolling: self.rolling_type, new_log_name: name }
    }
}

/// Rotation and retention agree on names: for any real instant, the
/// timestamp a rotation embeds in a snapshot file name is exactly what
/// `file_name_parse_time` reads back, to second precision.
pub proof fn lemma_snapshot_name_round_trip(ts: Timestamp)
    requires
        ts.calendar_valid(),
    ensures
        name_stamp(snapshot_name(ts)) == Some(Timestamp { micros: 0, ..ts }),
{
    let name = snapshot_name(ts);
    let fs = file_stamp(ts);
    let y = dec(ts.year as int, 4);
    let mo = dec(ts.month as int, 2);
    let da = dec(ts.day as int, 2);
    let ho = dec(ts.hour as int, 2);
    let mi = dec(ts.minute as int, 2);
    let se = dec(ts.second as int, 2);
    let us = dec(ts.micros as int, 6);
    lemma_dec_len(ts.year as int, 4);
    lemma_dec_len(ts.month as int, 2);
    lemma_dec_len(ts.day as int, 2);
    lemma_dec_len(ts.hour as int, 2);
    lemma_dec_len(ts.minute as int, 2);
    lemma_dec_len(ts.second as int, 2);
    lemma_dec_len(ts.micros as int, 6);
    lemma_dec_is_digits(ts.year as int, 4);
    lemma_dec_is_digits(ts.month as int, 2);
    lemma_dec_is_digits(ts.day as int, 2);
    lemma_dec_is_digits(ts.hour as int, 2);
    lemma_dec_is_digits(ts.minute as int, 2);
    lemma_dec_is_digits(ts.second as int, 2);
    lemma_dec_is_digits(ts.micros as int, 6);
    assert(fs.len() == 26);
    assert(name.len() == 34);
    assert(name.subrange(0, 4) =~= seq!['t', 'e', 'm', 'p']);
    let rest = name.skip(4);
    assert(rest =~= fs + seq!['.', 'l', 'o', 'g']);
    assert(fs[4] == '_' && fs[7] == '_' && fs[10] == 'T' && fs[13] == '_' && fs[16] == '_');
    assert(fs[19] == '.');
    assert(fs[0] == y[0] && fs[1] == y[1] && fs[2] == y[2] && fs[3] == y[3]);
    assert(fs[5] == mo[0] && fs[6] == mo[1]);
    assert(fs[8] == da[0] && fs[9] == da[1]);
    assert(fs[11] == ho[0] && fs[12] == ho[1]);
    assert(fs[14] == mi[0] && fs[15] == mi[1]);
    assert(fs[17] == se[0] && fs[18] == se[1]);
    assert(forall|k: int| 0 <= k < 19 ==> rest[k] == fs[k]);
    assert forall|k: int| 0 <= k < 19 implies rest[k] != '.' by {
        assert(rest[k] == fs[k]);
    }
    assert(rest[19] == '.');
    lemma_trunc_at_dot(rest, 19);
    let seg = trunc_at_dot(rest);
    assert(seg =~= rest.take(19));
    assert(forall|k: int| 0 <= k < 19 ==> seg[k] == fs[k]);
    lemma_dec4_value(ts.year as int);
    lemma_dec2_value(ts.month as int);
    lemma_dec2_value(ts.day as int);
    lemma_dec2_value(ts.hour as int);
    lemma_dec2_value(ts.minute as int);
    lemma_dec2_value(ts.second as int);
    assert(stamp_of(seg).year == ts.year);
    assert(stamp_of(seg).month == ts.month);
    assert(stamp_of(seg).day == ts.day);
    assert(stamp_of(seg).hour == ts.hour);
    assert(stamp_of(seg).minute == ts.minute);
    assert(stamp_of(seg).second == ts.second);
    assert(stamp_of(seg) == Timestamp { micros: 0, ..ts });
    assert(parses(seg));
}

/// Packs one snapshot, giving a failing packer the retries it asks for.
/// `Err` hands the pack back untouched when the snapshot path is empty;
/// otherwise the first successful attempt decides, and once the retries are
/// exhausted the snapshot is kept (`Ok(false)`). Packers open the snapshot
/// path themselves, so a snapshot that cannot be opened counts as a failed
/// attempt: it too consumes the retries and stays on disk.
pub fn do_pack<P: Packer>(packer: &P, pack: LogPack) -> (r: Result<bool, LogPack>)
    ensures
        pack.new_log_name@.len() == 0 ==> r == Result::<bool, LogPack>::Err(pack),
        pack.new_log_name@.len() > 0 ==> r is Ok,
{
    if pack.new_log_name.as_str().is_empty() {
        return Err(pack);
    }
    let retries = packer.retry();
    let bound: i64 = if retries > 0 {
        retries as i64
    } else {
        0
    };
    let mut attempt: i64 = 0;
    while attempt <= bound
        invariant
            0 <= attempt <= bound + 1,
            bound <= 0x7fffffff,
            pack.new_log_name@.len() > 0,
        decreases bound + 1 - attempt,
    {
        match packer.do_pack(pack.new_log_name.as_str()) {
            Ok(b) => {
                return Ok(b);
            },
            Err(_) => {
                attempt = attempt + 1;
            },
        }
    }
    Ok(false)
}

/// After packing, the snapshot is deleted exactly when the packer reported
/// success and asked for the source to be removed; on `Ok(false)` or on a
/// failed pack the snapshot stays on disk for an operator to recover.
pub fn should_remove_snapshot(r: &Result<bool, LogPack>) -> (b: bool)
    ensures
        b == match *r {
            Ok(v) => v,
            Err(_) => false,
        },
{
    match r {
        Ok(v) => *v,
        Err(_) => false,
    }
}

} // verus!
