//! Persistent hierarchical locations and their textual form (`"2:0:1"`).

use vstd::prelude::*;

verus! {

/// Character of the decimal digit `d` (`d < 10`).
pub open spec fn digit_char(d: nat) -> char {
    if d == 0 {
        '0'
    } else if d == 1 {
        '1'
    } else if d == 2 {
        '2'
    } else if d == 3 {
        '3'
    } else if d == 4 {
        '4'
    } else if d == 5 {
        '5'
    } else if d == 6 {
        '6'
    } else if d == 7 {
        '7'
    } else if d == 8 {
        '8'
    } else {
        '9'
    }
}

pub open spec fn is_digit(c: char) -> bool {
    '0' <= c && c <= '9'
}

pub open spec fn digit_value(c: char) -> nat {
    (c as u32 - '0' as u32) as nat
}

/// Both `:` and `.` separate the indices of a path.
pub open spec fn is_separator(c: char) -> bool {
    c == ':' || c == '.'
}

/// Decimal rendering of `n`, without leading zeros.
pub open spec fn decimal(n: nat) -> Seq<char>
    decreases n,
{
    if n < 10 {
        seq![digit_char(n)]
    } else {
        decimal(n / 10).push(digit_char(n % 10))
    }
}

/// Canonical text of an index sequence: decimal indices joined by `:`.
pub open spec fn render(p: Seq<u32>) -> Seq<char>
    decreases p.len(),
{
    if p.len() == 0 {
        seq![]
    } else if p.len() == 1 {
        decimal(p[0] as nat)
    } else {
        render(p.drop_last()).push(':') + decimal(p.last() as nat)
    }
}

/// Left-to-right scan of path text: the indices completed so far, the value of
/// the segment being read, and whether that segment has a digit yet.
/// `None` once a character is neither digit nor separator, a separator ends an
/// empty segment, or a segment's value leaves the `u32` range.
pub open spec fn scan(s: Seq<char>) -> Option<(Seq<u32>, nat, bool)>
    decreases s.len(),
{
    if s.len() == 0 {
        Some((seq![], 0, false))
    } else {
        match scan(s.drop_last()) {
            None => None,
            Some((done, cur, seen)) => {
                let c = s.last();
                if is_digit(c) {
                    let v = cur * 10 + digit_value(c);
                    if v <= u32::MAX {
                        Some((done, v, true))
                    } else {
                        None
                    }
                } else if is_separator(c) && seen {
                    Some((done.push(cur as u32), 0, false))
                } else {
                    None
                }
            },
        }
    }
}

/// The index sequence that `s` denotes, if it is well formed. The empty text
/// denotes the empty path.
pub open spec fn parse(s: Seq<char>) -> Option<Seq<u32>> {
    if s.len() == 0 {
        Some(seq![])
    } else {
        match scan(s) {
            Some((done, cur, seen)) => if seen {
                Some(done.push(cur as u32))
            } else {
                None
            },
            None => None,
        }
    }
}

/// Malformed path text: an empty segment, a character that is neither a digit
/// nor a separator, or an index beyond the `u32` range.
#[derive(Clone, Copy, Debug, PartialEq, Eq, Structural)]
pub struct PathParseError;

/// A node's location: its position among its siblings at each depth, from the
/// top level down. Equality is equality of the index sequences.
#[derive(Clone, Debug, Hash, Ord)]
pub struct TreePath {
    indices: Vec<u32>,
}

impl View for TreePath {
    type V = Seq<u32>;

    closed spec fn view(&self) -> Seq<u32> {
        self.indices@
    }
}

impl PartialEq for TreePath {
    fn eq(&self, other: &TreePath) -> (r: bool)
        ensures
            r == (self@ == other@),
    {
        let n = self.indices.len();
        if n != other.indices.len() {
            return false;
        }
        let mut i: usize = 0;
        while i < n
            invariant
                n == self.indices@.len() == other.indices@.len(),
                i <= n,
                self.indices@.take(i as int) == other.indices@.take(i as int),
            decreases n - i,
        {
            if self.indices[i] != other.indices[i] {
                assert(self.indices@[i as int] != other.indices@[i as int]);
                return false;
            }
            assert(self.indices@.take(i + 1) == self.indices@.take(i as int).push(self.indices@[i as int]));
            assert(other.indices@.take(i + 1) == other.indices@.take(i as int).push(other.indices@[i as int]));
            i = i + 1;
        }
        assert(self.indices@ == self.indices@.take(n as int));
        assert(other.indices@ == other.indices@.take(n as int));
        true
    }
}

impl vstd::std_specs::cmp::PartialEqSpecImpl for TreePath {
    open spec fn obeys_eq_spec() -> bool {
        true
    }

    open spec fn eq_spec(&self, other: &TreePath) -> bool {
        self@ == other@
    }
}

impl Eq for TreePath {

}

/// Lexicographic order of index sequences: the first differing index decides,
/// and a proper prefix comes first.
pub open spec fn lex_cmp(a: Seq<u32>, b: Seq<u32>) -> core::cmp::Ordering
    decreases a.len(),
{
    if a.len() == 0 {
        if b.len() == 0 {
            core::cmp::Ordering::Equal
        } else {
            core::cmp::Ordering::Less
        }
    } else if b.len() == 0 {
        core::cmp::Ordering::Greater
    } else if a[0] < b[0] {
        core::cmp::Ordering::Less
    } else if a[0] > b[0] {
        core::cmp::Ordering::Greater
    } else {
        lex_cmp(a.drop_first(), b.drop_first())
    }
}

impl PartialOrd for TreePath {
    fn partial_cmp(&self, other: &TreePath) -> (r: Option<core::cmp::Ordering>)
        ensures
            r == Some(lex_cmp(self@, other@)),
    {
        let a = &self.indices;
        let b = &other.indices;
        let mut i: usize = 0;
        assert(a@.skip(0) == a@ && b@.skip(0) == b@);
        while i < a.len() && i < b.len()
            invariant
                a@ == self@,
                b@ == other@,
                i <= a@.len(),
                i <= b@.len(),
                lex_cmp(self@, other@) == lex_cmp(a@.skip(i as int), b@.skip(i as int)),
            decreases a@.len() - i,
        {
            assert(a@.skip(i as int)[0] == a@[i as int]);
            assert(b@.skip(i as int)[0] == b@[i as int]);
            if a[i] < b[i] {
                return Some(core::cmp::Ordering::Less);
            }
            if a[i] > b[i] {
                return Some(core::cmp::Ordering::Greater);
            }
            assert(a@.skip(i as int).drop_first() == a@.skip(i + 1));
            assert(b@.skip(i as int).drop_first() == b@.skip(i + 1));
            i = i + 1;
        }
        if i < a.len() {
            Some(core::cmp::Ordering::Greater)
        } else if i < b.len() {
            Some(core::cmp::Ordering::Less)
        } else {
            Some(core::cmp::Ordering::Equal)
        }
    }
}

impl vstd::std_specs::cmp::PartialOrdSpecImpl for TreePath {
    open spec fn obeys_partial_cmp_spec() -> bool {
        true
    }

    open spec fn partial_cmp_spec(&self, other: &TreePath) -> Option<core::cmp::Ordering> {
        Some(lex_cmp(self@, other@))
    }
}

/// Text of one decimal digit.
fn digit_str(d: u32) -> (r: &'static str)
    requires
        d < 10,
    ensures
        r@ == seq![digit_char(d as nat)],
{
    if d == 0 {
        proof { reveal_strlit("0"); }
        "0"
    } else if d == 1 {
        proof { reveal_strlit("1"); }
        "1"
    } else if d == 2 {
        proof { reveal_strlit("2"); }
        "2"
    } else if d == 3 {
        proof { reveal_strlit("3"); }
        "3"
    } else if d == 4 {
        proof { reveal_strlit("4"); }
        "4"
    } else if d == 5 {
        proof { reveal_strlit("5"); }
        "5"
    } else if d == 6 {
        proof { reveal_strlit("6"); }
        "6"
    } else if d == 7 {
        proof { reveal_strlit("7"); }
        "7"
    } else if d == 8 {
        proof { reveal_strlit("8"); }
        "8"
    } else {
        proof { reveal_strlit("9"); }
        "9"
    }
}

/// Appends the decimal rendering of `n` to `s`.
fn push_decimal(s: &mut String, n: u32)
    ensures
        final(s)@ == old(s)@ + decimal(n as nat),
    decreases n,
{
    if n >= 10 {
        push_decimal(s, n / 10);
    }
    s.append(digit_str(n % 10));
    assert(final(s)@ =~= old(s)@ + decimal(n as nat));
}

impl TreePath {
    /// The empty path (depth zero).
    pub fn new() -> (r: TreePath)
        ensures
            r@ == Seq::<u32>::empty(),
    {
        TreePath { indices: Vec::new() }
    }

    /// The path with the given indices, top level first.
    pub fn from_indices(indices: Vec<u32>) -> (r: TreePath)
        ensures
            r@ == indices@,
    {
        TreePath { indices }
    }

    /// The indices, top level first.
    pub fn get_indices(&self) -> (r: &Vec<u32>)
        ensures
            r@ == self@,
    {
        &self.indices
    }

    /// A path with the same indices.
    pub fn duplicate(&self) -> (r: TreePath)
        ensures
            r@ == self@,
    {
        let n = self.indices.len();
        let mut v: Vec<u32> = Vec::new();
        let mut i: usize = 0;
        while i < n
            invariant
                n == self@.len(),
                i <= n,
                v@ == self@.take(i as int),
            decreases n - i,
        {
            v.push(self.indices[i]);
            i = i + 1;
        }
        assert(self@.take(n as int) == self@);
        TreePath { indices: v }
    }

    /// Number of levels.
    pub fn get_depth(&self) -> (r: usize)
        ensures
            r == self@.len(),
    {
        self.indices.len()
    }

    /// Descends one level, to the child at position `index`.
    pub fn append_index(&mut self, index: u32)
        ensures
            final(self)@ == old(self)@.push(index),
    {
        self.indices.push(index);
    }

    /// Canonical text: the decimal indices joined by `:`; empty for the empty path.
    pub fn to_string(&self) -> (r: String)
        ensures
            r@ == render(self@),
    {
        let mut r = String::new();
        let n = self.indices.len();
        let mut i: usize = 0;
        while i < n
            invariant
                n == self@.len(),
                i <= n,
                r@ == render(self@.take(i as int)),
            decreases n - i,
        {
            let ghost before = self@.take(i as int);
            let ghost after = self@.take(i + 1);
            assert(after.drop_last() == before);
            assert(after.last() == self@[i as int]);
            if i > 0 {
                r.append(":");
                proof { reveal_strlit(":"); }
            }
            push_decimal(&mut r, self.indices[i]);
            proof {
                if i == 0 {
                    assert(before.len() == 0);
                    assert(r@ =~= decimal(after[0] as nat));
                } else {
                    assert(r@ =~= render(before).push(':') + decimal(after.last() as nat));
                }
            }
            i = i + 1;
        }
        assert(self@.take(n as int) == self@);
        r
    }

    /// Parses path text: decimal indices separated by `:` or `.`.
    pub fn from_string(s: &str) -> (r: Result<TreePath, PathParseError>)
        ensures
            r matches Ok(p) ==> parse(s@) == Some(p@),
            r is Err <==> parse(s@) is None,
    {
        let n = s.unicode_len();
        let mut done: Vec<u32> = Vec::new();
        let mut cur: u32 = 0;
        let mut seen: bool = false;
        let mut i: usize = 0;
        while i < n
            invariant
                n == s@.len(),
                i <= n,
                scan(s@.take(i as int)) == Some((done@, cur as nat, seen)),
            decreases n - i,
        {
            let c = s.get_char(i);
            let ghost pre = s@.take(i as int);
            assert(s@.take(i + 1).drop_last() == pre);
            assert(s@.take(i + 1).last() == c);
            if '0' <= c && c <= '9' {
                let v: u64 = (cur as u64) * 10 + (c as u32 - '0' as u32) as u64;
                if v > u32::MAX as u64 {
                    proof { lemma_scan_stays_failed(s@, i as int + 1); }
                    return Err(PathParseError);
                }
                cur = v as u32;
                seen = true;
            } else if (c == ':' || c == '.') && seen {
                done.push(cur);
                cur = 0;
                seen = false;
            } else {
                proof { lemma_scan_stays_failed(s@, i as int + 1); }
                return Err(PathParseError);
            }
            i = i + 1;
        }
        assert(s@.take(n as int) == s@);
        if n > 0 && !seen {
            return Err(PathParseError);
        }
        if n > 0 {
            done.push(cur);
        }
        Ok(TreePath { indices: done })
    }
}

/// Once a prefix of `s` fails to scan, `s` fails to scan.
proof fn lemma_scan_stays_failed(s: Seq<char>, i: int)
    requires
        0 <= i <= s.len(),
        scan(s.take(i)) is None,
    ensures
        scan(s) is None,
    decreases s.len() - i,
{
    if i < s.len() {
        assert(s.take(i + 1).drop_last() == s.take(i));
        lemma_scan_stays_failed(s, i + 1);
    } else {
        assert(s.take(i) == s);
    }
}

/// Scanning the decimal digits of `n` after a separator reads back `n`.
proof fn lemma_scan_decimal(pre: Seq<char>, done: Seq<u32>, n: nat)
    requires
        n <= u32::MAX,
        scan(pre) == Some((done, 0nat, false)),
    ensures
        scan(pre + decimal(n)) == Some((done, n, true)),
    decreases n,
{
    let d = n % 10;
    assert(digit_value(digit_char(d)) == d && is_digit(digit_char(d)));
    if n < 10 {
        assert((pre + decimal(n)).drop_last() == pre);
    } else {
        lemma_scan_decimal(pre, done, n / 10);
        assert((pre + decimal(n)).drop_last() == pre + decimal(n / 10));
        assert((n / 10) * 10 + n % 10 == n);
    }
}

/// The text of a non-empty path scans to its leading indices, with its last
/// index as the open segment.
proof fn lemma_scan_render(p: Seq<u32>)
    requires
        p.len() > 0,
    ensures
        scan(render(p)) == Some((p.drop_last(), p.last() as nat, true)),
    decreases p.len(),
{
    if p.len() == 1 {
        assert(scan(Seq::<char>::empty()) == Some((Seq::<u32>::empty(), 0nat, false)));
        lemma_scan_decimal(Seq::empty(), Seq::empty(), p[0] as nat);
        assert(Seq::<char>::empty() + decimal(p[0] as nat) == decimal(p[0] as nat));
        assert(p.drop_last() == Seq::<u32>::empty());
    } else {
        let q = p.drop_last();
        lemma_scan_render(q);
        let pre = render(q).push(':');
        assert(pre.drop_last() == render(q));
        assert(q.drop_last().push(q.last()) == q);
        lemma_scan_decimal(pre, q, p.last() as nat);
    }
}

proof fn lemma_decimal_nonempty(n: nat)
    ensures
        decimal(n).len() > 0,
    decreases n,
{
    if n >= 10 {
        lemma_decimal_nonempty(n / 10);
    }
}

/// Parsing a path's canonical text gives the path back.
pub proof fn lemma_path_text_round_trip(p: TreePath)
    ensures
        parse(render(p@)) == Some(p@),
{
    let s = p@;
    if s.len() > 0 {
        lemma_scan_render(s);
        if s.len() == 1 {
            lemma_decimal_nonempty(s[0] as nat);
        } else {
            lemma_decimal_nonempty(s.last() as nat);
        }
        assert(s.drop_last().push(s.last()) == s);
    }
}

} // verus!
