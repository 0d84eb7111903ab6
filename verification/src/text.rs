use vstd::prelude::*;

verus! {

// ---------------------------------------------------------------------------
// Characters
// ---------------------------------------------------------------------------

/// Unicode `White_Space`, by code point.
pub open spec fn is_space_code(u: u32) -> bool {
    ||| 0x09 <= u <= 0x0D
    ||| u == 0x20
    ||| u == 0x85
    ||| u == 0xA0
    ||| u == 0x1680
    ||| 0x2000 <= u <= 0x200A
    ||| u == 0x2028
    ||| u == 0x2029
    ||| u == 0x202F
    ||| u == 0x205F
    ||| u == 0x3000
}

/// Whether a character has the Unicode `White_Space` property.
pub open spec fn is_space(c: char) -> bool {
    is_space_code(c as u32)
}

/// An ASCII decimal digit.
pub open spec fn is_digit(c: char) -> bool {
    48 <= (c as u32) <= 57
}

/// The classes of characters that the scanners below run over.
#[derive(Clone, Copy)]
pub enum CharClass {
    Space,
    NonSpace,
    NotNewline,
}

impl CharClass {
    pub open spec fn holds(self, c: char) -> bool {
        match self {
            CharClass::Space => is_space(c),
            CharClass::NonSpace => !is_space(c),
            CharClass::NotNewline => c != '\n',
        }
    }
}

pub fn char_is_space(c: char) -> (b: bool)
    ensures
        b == is_space(c),
{
    let u = c as u32;
    (0x09 <= u && u <= 0x0D) || u == 0x20 || u == 0x85 || u == 0xA0 || u == 0x1680 || (0x2000
        <= u && u <= 0x200A) || u == 0x2028 || u == 0x2029 || u == 0x202F || u == 0x205F || u
        == 0x3000
}

fn class_holds(c: char, k: CharClass) -> (b: bool)
    ensures
        b == k.holds(c),
{
    match k {
        CharClass::Space => char_is_space(c),
        CharClass::NonSpace => !char_is_space(c),
        CharClass::NotNewline => c != '\n',
    }
}

// ---------------------------------------------------------------------------
// Runs of characters of one class
// ---------------------------------------------------------------------------

/// The length of the longest prefix of `s` whose characters are all in `k`.
pub open spec fn run_len(s: Seq<char>, k: CharClass) -> nat
    decreases s.len(),
{
    if s.len() > 0 && k.holds(s[0]) {
        1 + run_len(s.drop_first(), k)
    } else {
        0
    }
}

/// The length of the longest suffix of `s` whose characters are all in `k`.
pub open spec fn back_run_len(s: Seq<char>, k: CharClass) -> nat
    decreases s.len(),
{
    if s.len() > 0 && k.holds(s.last()) {
        1 + back_run_len(s.drop_last(), k)
    } else {
        0
    }
}

pub proof fn lemma_run_len(s: Seq<char>, k: CharClass)
    ensures
        run_len(s, k) <= s.len(),
        forall|i: int| 0 <= i < run_len(s, k) ==> k.holds(#[trigger] s[i]),
        run_len(s, k) < s.len() ==> !k.holds(s[run_len(s, k) as int]),
    decreases s.len(),
{
    if s.len() > 0 && k.holds(s[0]) {
        lemma_run_len(s.drop_first(), k);
        assert forall|i: int| 0 <= i < run_len(s, k) implies k.holds(#[trigger] s[i]) by {
            if i > 0 {
                assert(s[i] == s.drop_first()[i - 1]);
            }
        }
    }
}

proof fn lemma_run_len_unique(s: Seq<char>, k: CharClass, n: int)
    requires
        0 <= n <= s.len(),
        forall|i: int| 0 <= i < n ==> k.holds(#[trigger] s[i]),
        n < s.len() ==> !k.holds(s[n]),
    ensures
        run_len(s, k) == n,
{
    lemma_run_len(s, k);
    if run_len(s, k) < n {
        assert(k.holds(s[run_len(s, k) as int]));
    }
    if run_len(s, k) > n {
        assert(k.holds(s[n]));
    }
}

pub proof fn lemma_back_run_len(s: Seq<char>, k: CharClass)
    ensures
        back_run_len(s, k) <= s.len(),
        forall|i: int| s.len() - back_run_len(s, k) <= i < s.len() ==> k.holds(#[trigger] s[i]),
        back_run_len(s, k) < s.len() ==> !k.holds(s[s.len() - back_run_len(s, k) - 1]),
    decreases s.len(),
{
    if s.len() > 0 && k.holds(s.last()) {
        lemma_back_run_len(s.drop_last(), k);
        assert forall|i: int| s.len() - back_run_len(s, k) <= i < s.len() implies k.holds(
            #[trigger] s[i],
        ) by {
            if i < s.len() - 1 {
                assert(s[i] == s.drop_last()[i]);
            }
        }
    }
}

proof fn lemma_back_run_len_unique(s: Seq<char>, k: CharClass, n: int)
    requires
        0 <= n <= s.len(),
        forall|i: int| s.len() - n <= i < s.len() ==> k.holds(#[trigger] s[i]),
        n < s.len() ==> !k.holds(s[s.len() - n - 1]),
    ensures
        back_run_len(s, k) == n,
{
    lemma_back_run_len(s, k);
    if back_run_len(s, k) < n {
        assert(k.holds(s[s.len() - back_run_len(s, k) - 1]));
    }
    if back_run_len(s, k) > n {
        assert(k.holds(s[s.len() - n - 1]));
    }
}

/// Index just past the run of `k` characters that starts at `pos`.
pub fn scan(v: &Vec<char>, pos: usize, stop: usize, k: CharClass) -> (end: usize)
    requires
        pos <= stop <= v.len(),
    ensures
        end == pos + run_len(v@.subrange(pos as int, stop as int), k),
        pos <= end <= stop,
{
    let mut i = pos;
    while i < stop && class_holds(v[i], k)
        invariant
            pos <= i <= stop <= v.len(),
            forall|j: int| pos <= j < i ==> k.holds(#[trigger] v@[j]),
        decreases stop - i,
    {
        i = i + 1;
    }
    proof {
        let s = v@.subrange(pos as int, stop as int);
        assert forall|j: int| 0 <= j < i - pos implies k.holds(#[trigger] s[j]) by {
            assert(s[j] == v@[pos + j]);
        }
        lemma_run_len_unique(s, k, i - pos);
    }
    i
}

/// Index of the start of the run of `k` characters that ends at `stop`.
pub fn scan_back(v: &Vec<char>, start: usize, stop: usize, k: CharClass) -> (begin: usize)
    requires
        start <= stop <= v.len(),
    ensures
        begin == stop - back_run_len(v@.subrange(start as int, stop as int), k),
        start <= begin <= stop,
{
    let mut i = stop;
    while i > start && class_holds(v[i - 1], k)
        invariant
            start <= i <= stop <= v.len(),
            forall|j: int| i <= j < stop ==> k.holds(#[trigger] v@[j]),
        decreases i - start,
    {
        i = i - 1;
    }
    proof {
        let s = v@.subrange(start as int, stop as int);
        assert forall|j: int| s.len() - (stop - i) <= j < s.len() implies k.holds(
            #[trigger] s[j],
        ) by {
            assert(s[j] == v@[start + j]);
        }
        lemma_back_run_len_unique(s, k, stop - i);
    }
    i
}

/// The characters of a string slice, one per element.
pub fn chars_of(s: &str) -> (v: Vec<char>)
    ensures
        v@ == s@,
{
    let mut v: Vec<char> = Vec::new();
    for c in it: s.chars()
        invariant
            v@ == it.seq().take(it.index()),
    {
        v.push(c);
    }
    v
}


// ---------------------------------------------------------------------------
// Lines, words and trimming
// ---------------------------------------------------------------------------

/// A line with one carriage return before its newline removed.
pub open spec fn strip_cr(l: Seq<char>) -> Seq<char> {
    if l.len() > 0 && l.last() == '\r' {
        l.drop_last()
    } else {
        l
    }
}

/// The lines of `s` as `str::lines` yields them: split at `\n`, a `\r` just
/// before a `\n` dropped, no empty line after a final `\n`.
pub open spec fn lines(s: Seq<char>) -> Seq<Seq<char>>
    decreases s.len(),
{
    if s.len() == 0 {
        seq![]
    } else {
        let e = run_len(s, CharClass::NotNewline);
        if e < s.len() {
            seq![strip_cr(s.take(e as int))] + lines(s.skip(e + 1int))
        } else {
            seq![s]
        }
    }
}

/// `s` without its leading white space.
pub open spec fn trim_start(s: Seq<char>) -> Seq<char> {
    s.skip(run_len(s, CharClass::Space) as int)
}

/// `s` without leading and trailing white space, as `str::trim` gives it.
pub open spec fn trim(s: Seq<char>) -> Seq<char> {
    let t = trim_start(s);
    t.take(t.len() - back_run_len(t, CharClass::Space))
}

/// The words of `s` as `str::split_whitespace` yields them.
pub open spec fn split_ws(s: Seq<char>) -> Seq<Seq<char>>
    decreases s.len(),
{
    let t = trim_start(s);
    if t.len() == 0 {
        seq![]
    } else {
        proof {
            lemma_split_ws_guard(s);
        }
        let e = run_len(t, CharClass::NonSpace);
        seq![t.take(e as int)] + split_ws(t.skip(e as int))
    }
}

pub proof fn lemma_split_ws_guard(s: Seq<char>)
    ensures
        ({
            let t = trim_start(s);
            t.len() > 0 ==> 0 < run_len(t, CharClass::NonSpace) <= t.len() <= s.len()
        }),
{
    lemma_run_len(s, CharClass::Space);
    let t = trim_start(s);
    if t.len() > 0 {
        assert(t[0] == s[run_len(s, CharClass::Space) as int]);
        lemma_run_len(t, CharClass::NonSpace);
    }
}

/// The first word of `s`: after the leading white space, the longest run of
/// other characters; there is none exactly when `s` is all white space.
pub proof fn lemma_first_word(s: Seq<char>)
    ensures
        split_ws(s).len() == 0 <==> forall|i: int| 0 <= i < s.len() ==> is_space(#[trigger] s[i]),
        split_ws(s).len() > 0 ==> exists|a: int, b: int|
            #![trigger s.subrange(a, b)]
            {
                &&& 0 <= a < b <= s.len()
                &&& forall|i: int| 0 <= i < a ==> is_space(#[trigger] s[i])
                &&& forall|i: int| a <= i < b ==> !is_space(#[trigger] s[i])
                &&& (b == s.len() || is_space(s[b]))
                &&& split_ws(s)[0] == s.subrange(a, b)
            },
{
    lemma_run_len(s, CharClass::Space);
    lemma_split_ws_guard(s);
    let a = run_len(s, CharClass::Space) as int;
    let t = trim_start(s);
    if t.len() == 0 {
        assert(a == s.len());
        assert forall|i: int| 0 <= i < s.len() implies is_space(#[trigger] s[i]) by {
            assert(CharClass::Space.holds(s[i]));
        }
    } else {
        assert(!is_space(s[a]));
        let e = run_len(t, CharClass::NonSpace) as int;
        lemma_run_len(t, CharClass::NonSpace);
        let b = a + e;
        assert(t.take(e) =~= s.subrange(a, b));
        assert(split_ws(s)[0] == t.take(e));
        assert forall|i: int| 0 <= i < a implies is_space(#[trigger] s[i]) by {
            assert(CharClass::Space.holds(s[i]));
        }
        assert forall|i: int| a <= i < b implies !is_space(#[trigger] s[i]) by {
            assert(t[i - a] == s[i]);
            assert(CharClass::NonSpace.holds(t[i - a]));
        }
        if b < s.len() {
            assert(t[e] == s[b]);
        }
        assert(s.subrange(a, b) == s.subrange(a, b));
    }
}

/// Whether `p` occurs in `s` at index `j`.
pub open spec fn occurs_at(s: Seq<char>, p: Seq<char>, j: int) -> bool {
    0 <= j && j + p.len() <= s.len() && s.subrange(j, j + p.len()) == p
}

/// The index of the first occurrence of `p` in `s`, as `str::find` locates it
/// (counted in characters).
pub open spec fn find(s: Seq<char>, p: Seq<char>) -> Option<nat>
    decreases s.len(),
{
    if p.len() <= s.len() && s.take(p.len() as int) == p {
        Some(0)
    } else if s.len() <= p.len() {
        None
    } else {
        match find(s.drop_first(), p) {
            Some(k) => Some(k + 1),
            None => None,
        }
    }
}

pub proof fn lemma_find(s: Seq<char>, p: Seq<char>)
    ensures
        match find(s, p) {
            Some(k) => occurs_at(s, p, k as int) && forall|j: int|
                0 <= j < k ==> !#[trigger] occurs_at(s, p, j),
            None => forall|j: int| !#[trigger] occurs_at(s, p, j),
        },
    decreases s.len(),
{
    if p.len() <= s.len() && s.take(p.len() as int) == p {
        assert(s.subrange(0, p.len() as int) =~= s.take(p.len() as int));
    } else if s.len() <= p.len() {
        assert forall|j: int| !#[trigger] occurs_at(s, p, j) by {
            if occurs_at(s, p, j) {
                assert(j == 0);
                assert(s.subrange(0, p.len() as int) =~= s.take(p.len() as int));
            }
        }
    } else {
        let t = s.drop_first();
        lemma_find(t, p);
        assert(!occurs_at(s, p, 0)) by {
            assert(s.subrange(0, p.len() as int) =~= s.take(p.len() as int));
        }
        assert forall|j: int| 1 <= j implies #[trigger] occurs_at(s, p, j) == occurs_at(
            t,
            p,
            j - 1,
        ) by {
            if j + p.len() <= s.len() {
                assert(s.subrange(j, j + p.len()) =~= t.subrange(j - 1, j - 1 + p.len()));
            }
        }
        match find(t, p) {
            Some(k) => {
                assert(occurs_at(t, p, k as int));
                assert(occurs_at(s, p, k + 1int));
                assert forall|j: int| 0 <= j < k + 1 implies !#[trigger] occurs_at(s, p, j) by {
                    if j >= 1 {
                        assert(!occurs_at(t, p, j - 1));
                    }
                }
            },
            None => {
                assert forall|j: int| !#[trigger] occurs_at(s, p, j) by {
                    if j >= 1 {
                        assert(!occurs_at(t, p, j - 1));
                    }
                }
            },
        }
    }
}

/// `s` with the prefix `p` removed, as `str::strip_prefix` gives it.
pub open spec fn strip_prefix(s: Seq<char>, p: Seq<char>) -> Option<Seq<char>> {
    if p.len() <= s.len() && s.take(p.len() as int) == p {
        Some(s.skip(p.len() as int))
    } else {
        None
    }
}

/// Whether the characters of `v` from `at` on start with `p`.
pub fn matches_at(v: &Vec<char>, at: usize, stop: usize, p: &Vec<char>) -> (b: bool)
    requires
        at <= stop <= v.len(),
    ensures
        b == (p@.len() <= stop - at && v@.subrange(at as int, at + p@.len()) == p@),
{
    if p.len() > stop - at {
        return false;
    }
    let mut q: usize = 0;
    while q < p.len()
        invariant
            at + p@.len() <= stop <= v.len(),
            q <= p.len(),
            forall|r: int| 0 <= r < q ==> v@[at + r] == p@[r],
        decreases p.len() - q,
    {
        if v[at + q] != p[q] {
            assert(v@.subrange(at as int, at + p@.len())[q as int] != p@[q as int]);
            return false;
        }
        q = q + 1;
    }
    assert(v@.subrange(at as int, at + p@.len()) =~= p@);
    true
}

/// The first occurrence of a non-empty `p` in `v[start..stop]`, as an index
/// into `v`.
pub fn find_in(v: &Vec<char>, start: usize, stop: usize, p: &Vec<char>) -> (r: Option<usize>)
    requires
        start <= stop <= v.len(),
        p@.len() > 0,
    ensures
        match find(v@.subrange(start as int, stop as int), p@) {
            Some(k) => r == Some((start + k) as usize),
            None => r is None,
        },
{
    let ghost s = v@.subrange(start as int, stop as int);
    proof {
        lemma_find(s, p@);
    }
    let mut i = start;
    while i < stop && p.len() <= stop - i
        invariant
            start <= i <= stop <= v.len(),
            p@.len() > 0,
            s == v@.subrange(start as int, stop as int),
            forall|j: int| 0 <= j < i - start ==> !#[trigger] occurs_at(s, p@, j),
        decreases stop - i,
    {
        let hit = matches_at(v, i, stop, p);
        proof {
            assert(s.subrange(i - start, i - start + p@.len()) =~= v@.subrange(
                i as int,
                i + p@.len(),
            ));
            assert(hit == occurs_at(s, p@, i - start));
        }
        if hit {
            proof {
                lemma_find(s, p@);
                match find(s, p@) {
                    Some(k) => {
                        if k < i - start {
                            assert(!occurs_at(s, p@, k as int));
                        }
                        if k > i - start {
                            assert(!occurs_at(s, p@, i - start));
                        }
                    },
                    None => {
                        assert(!occurs_at(s, p@, i - start));
                    },
                }
            }
            return Some(i);
        }
        i = i + 1;
    }
    proof {
        lemma_find(s, p@);
        match find(s, p@) {
            Some(k) => {
                assert(occurs_at(s, p@, k as int));
                assert(false);
            },
            None => {},
        }
    }
    None
}

/// The first line of `v[pos..]`: its bounds `v[start..end]` and the index
/// where the rest of the text begins.
pub fn next_line(v: &Vec<char>, pos: usize) -> (r: (usize, usize, usize))
    requires
        pos < v.len(),
    ensures
        pos <= r.0 <= r.1 <= r.2 <= v.len(),
        pos < r.2,
        lines(v@.subrange(pos as int, v.len() as int)).len() > 0,
        v@.subrange(r.0 as int, r.1 as int) == lines(v@.subrange(pos as int, v.len() as int))[0],
        lines(v@.subrange(r.2 as int, v.len() as int)) == lines(
            v@.subrange(pos as int, v.len() as int),
        ).drop_first(),
{
    let ghost s = v@.subrange(pos as int, v.len() as int);
    let len = v.len();
    let e = scan(v, pos, len, CharClass::NotNewline);
    proof {
        lemma_run_len(s, CharClass::NotNewline);
    }
    if e < len {
        let mut end = e;
        if e > pos && v[e - 1] == '\r' {
            end = e - 1;
        }
        proof {
            let k = e - pos;
            assert(s.take(k) =~= v@.subrange(pos as int, e as int));
            assert(s.skip(k + 1) =~= v@.subrange(e + 1, len as int));
            if e > pos && v@[e - 1] == '\r' {
                assert(s.take(k).drop_last() =~= v@.subrange(pos as int, end as int));
            }
            assert(lines(s) == seq![strip_cr(s.take(k))] + lines(s.skip(k + 1)));
            assert((seq![strip_cr(s.take(k))] + lines(s.skip(k + 1))).drop_first() =~= lines(
                s.skip(k + 1),
            ));
        }
        (pos, end, e + 1)
    } else {
        proof {
            assert(lines(s) == seq![s]);
            assert(v@.subrange(len as int, len as int) =~= Seq::<char>::empty());
            assert(lines(Seq::<char>::empty()) =~= seq![s].drop_first());
        }
        (pos, len, len)
    }
}

/// The first word of `v[pos..stop]`, if any, as bounds into `v`.
pub fn next_word(v: &Vec<char>, pos: usize, stop: usize) -> (r: Option<(usize, usize)>)
    requires
        pos <= stop <= v.len(),
    ensures
        r is None <==> split_ws(v@.subrange(pos as int, stop as int)).len() == 0,
        r matches Some((a, b)) ==> {
            &&& pos <= a < b <= stop
            &&& v@.subrange(a as int, b as int) == split_ws(
                v@.subrange(pos as int, stop as int),
            )[0]
            &&& split_ws(v@.subrange(b as int, stop as int)) == split_ws(
                v@.subrange(pos as int, stop as int),
            ).drop_first()
        },
{
    let ghost s = v@.subrange(pos as int, stop as int);
    let a = scan(v, pos, stop, CharClass::Space);
    proof {
        lemma_split_ws_guard(s);
        assert(trim_start(s) =~= v@.subrange(a as int, stop as int));
    }
    if a == stop {
        return None;
    }
    let b = scan(v, a, stop, CharClass::NonSpace);
    proof {
        let t = trim_start(s);
        let e = run_len(t, CharClass::NonSpace);
        assert(t.take(e as int) =~= v@.subrange(a as int, b as int));
        assert(t.skip(e as int) =~= v@.subrange(b as int, stop as int));
        assert(split_ws(s) == seq![t.take(e as int)] + split_ws(t.skip(e as int)));
        assert((seq![t.take(e as int)] + split_ws(t.skip(e as int))).drop_first() =~= split_ws(
            t.skip(e as int),
        ));
    }
    Some((a, b))
}

/// Bounds of `trim(v[start..stop])` inside `v`.
pub fn trim_range(v: &Vec<char>, start: usize, stop: usize) -> (r: (usize, usize))
    requires
        start <= stop <= v.len(),
    ensures
        start <= r.0 <= r.1 <= stop,
        v@.subrange(r.0 as int, r.1 as int) == trim(v@.subrange(start as int, stop as int)),
{
    let ghost s = v@.subrange(start as int, stop as int);
    let a = scan(v, start, stop, CharClass::Space);
    proof {
        assert(trim_start(s) =~= v@.subrange(a as int, stop as int));
    }
    let b = scan_back(v, a, stop, CharClass::Space);
    proof {
        let t = trim_start(s);
        assert(t.take(t.len() - back_run_len(t, CharClass::Space)) =~= v@.subrange(
            a as int,
            b as int,
        ));
    }
    (a, b)
}

// ---------------------------------------------------------------------------
// Decimal numbers
// ---------------------------------------------------------------------------

/// Every character of `s` is an ASCII digit.
pub open spec fn all_digits(s: Seq<char>) -> bool {
    forall|i: int| 0 <= i < s.len() ==> is_digit(#[trigger] s[i])
}

pub open spec fn digit_value(c: char) -> nat {
    ((c as u32) - 48) as nat
}

/// The number that a string of digits spells in base ten.
pub open spec fn digits_value(s: Seq<char>) -> nat
    decreases s.len(),
{
    if s.len() == 0 {
        0
    } else {
        digits_value(s.drop_last()) * 10 + digit_value(s.last())
    }
}

/// An unsigned integer as `FromStr` for the unsigned types reads it before
/// the range check: an optional `+`, then one or more ASCII digits.
pub open spec fn parse_unsigned(s: Seq<char>) -> Option<nat> {
    let d = if s.len() > 0 && s[0] == '+' {
        s.drop_first()
    } else {
        s
    };
    if d.len() > 0 && all_digits(d) {
        Some(digits_value(d))
    } else {
        None
    }
}

/// A signed integer as `FromStr` for the signed types reads it before the
/// range check: an optional `+` or `-`, then one or more ASCII digits.
pub open spec fn parse_signed(s: Seq<char>) -> Option<int> {
    if s.len() > 0 && s[0] == '-' {
        let d = s.drop_first();
        if d.len() > 0 && all_digits(d) {
            Some(-digits_value(d))
        } else {
            None
        }
    } else {
        match parse_unsigned(s) {
            Some(n) => Some(n as int),
            None => None,
        }
    }
}

/// `u16::from_str`.
pub open spec fn parse_u16(s: Seq<char>) -> Option<u16> {
    match parse_unsigned(s) {
        Some(n) => if n <= u16::MAX {
            Some(n as u16)
        } else {
            None
        },
        None => None,
    }
}

/// `u32::from_str`.
pub open spec fn parse_u32(s: Seq<char>) -> Option<u32> {
    match parse_unsigned(s) {
        Some(n) => if n <= u32::MAX {
            Some(n as u32)
        } else {
            None
        },
        None => None,
    }
}

/// `i32::from_str`.
pub open spec fn parse_i32(s: Seq<char>) -> Option<i32> {
    match parse_signed(s) {
        Some(n) => if i32::MIN <= n <= i32::MAX {
            Some(n as i32)
        } else {
            None
        },
        None => None,
    }
}

proof fn lemma_digits_value_step(s: Seq<char>, i: int)
    requires
        0 <= i < s.len(),
    ensures
        digits_value(s.take(i + 1)) == digits_value(s.take(i)) * 10 + digit_value(s[i]),
{
    assert(s.take(i + 1).drop_last() =~= s.take(i));
}

proof fn lemma_digits_value_prefix(s: Seq<char>, i: int)
    requires
        0 <= i <= s.len(),
    ensures
        digits_value(s.take(i)) <= digits_value(s),
    decreases s.len(),
{
    if i == s.len() {
        assert(s.take(i) =~= s);
    } else {
        lemma_digits_value_prefix(s.drop_last(), i);
        assert(s.drop_last().take(i) =~= s.take(i));
    }
}

/// The value of the digits `v[a..b]`, where it is at most `max`.
fn digits_at_most(v: &Vec<char>, a: usize, b: usize, max: u64) -> (r: Option<u64>)
    requires
        a <= b <= v.len(),
        max <= 0x1_0000_0000,
    ensures
        ({
            let d = v@.subrange(a as int, b as int);
            r == if d.len() > 0 && all_digits(d) && digits_value(d) <= max {
                Some(digits_value(d) as u64)
            } else {
                None
            }
        }),
{
    let ghost d = v@.subrange(a as int, b as int);
    if a == b {
        return None;
    }
    let mut i = a;
    while i < b
        invariant
            a <= i <= b <= v.len(),
            d == v@.subrange(a as int, b as int),
            forall|j: int| a <= j < i ==> is_digit(#[trigger] v@[j]),
        decreases b - i,
    {
        let u = v[i] as u32;
        if u < 48 || u > 57 {
            assert(!is_digit(d[i - a]));
            return None;
        }
        i = i + 1;
    }
    assert(all_digits(d)) by {
        assert forall|j: int| 0 <= j < d.len() implies is_digit(#[trigger] d[j]) by {
            assert(d[j] == v@[a + j]);
        }
    }
    let mut acc: u64 = 0;
    let mut i = a;
    while i < b
        invariant
            a <= i <= b <= v.len(),
            max <= 0x1_0000_0000,
            d == v@.subrange(a as int, b as int),
            all_digits(d),
            acc == digits_value(d.take(i - a)),
            acc <= max,
        decreases b - i,
    {
        let u = v[i] as u32;
        proof {
            lemma_digits_value_step(d, i - a);
            assert(d[i - a] == v@[i as int]);
            assert(is_digit(d[i - a]));
        }
        let next = acc * 10 + (u - 48) as u64;
        if next > max {
            proof {
                lemma_digits_value_prefix(d, i - a + 1);
            }
            return None;
        }
        acc = next;
        i = i + 1;
    }
    assert(d.take(b - a) =~= d);
    Some(acc)
}

/// `parse_unsigned(v[a..b])`, where the value is at most `max`.
pub fn parse_unsigned_at_most(v: &Vec<char>, a: usize, b: usize, max: u64) -> (r: Option<u64>)
    requires
        a <= b <= v.len(),
        max <= 0x1_0000_0000,
    ensures
        r == match parse_unsigned(v@.subrange(a as int, b as int)) {
            Some(n) => if n <= max {
                Some(n as u64)
            } else {
                None
            },
            None => None,
        },
{
    let ghost s = v@.subrange(a as int, b as int);
    if a < b && v[a] == '+' {
        proof {
            assert(s.drop_first() =~= v@.subrange(a + 1, b as int));
        }
        digits_at_most(v, a + 1, b, max)
    } else {
        digits_at_most(v, a, b, max)
    }
}

/// `u16::from_str` on `v[a..b]`.
pub fn parse_u16_at(v: &Vec<char>, a: usize, b: usize) -> (r: Option<u16>)
    requires
        a <= b <= v.len(),
    ensures
        r == parse_u16(v@.subrange(a as int, b as int)),
{
    match parse_unsigned_at_most(v, a, b, 0xFFFF) {
        Some(n) => Some(n as u16),
        None => None,
    }
}

/// `u32::from_str` on `v[a..b]`.
pub fn parse_u32_at(v: &Vec<char>, a: usize, b: usize) -> (r: Option<u32>)
    requires
        a <= b <= v.len(),
    ensures
        r == parse_u32(v@.subrange(a as int, b as int)),
{
    match parse_unsigned_at_most(v, a, b, 0xFFFF_FFFF) {
        Some(n) => Some(n as u32),
        None => None,
    }
}

/// `i32::from_str` on `v[a..b]`.
pub fn parse_i32_at(v: &Vec<char>, a: usize, b: usize) -> (r: Option<i32>)
    requires
        a <= b <= v.len(),
    ensures
        r == parse_i32(v@.subrange(a as int, b as int)),
{
    let ghost s = v@.subrange(a as int, b as int);
    if a < b && v[a] == '-' {
        proof {
            assert(s.drop_first() =~= v@.subrange(a + 1, b as int));
        }
        match digits_at_most(v, a + 1, b, 0x8000_0000) {
            Some(n) => {
                let m = n as i64;
                Some((-m) as i32)
            },
            None => None,
        }
    } else {
        match parse_unsigned_at_most(v, a, b, 0x7FFF_FFFF) {
            Some(n) => Some(n as i32),
            None => None,
        }
    }
}

/// The digit character for `d < 10`.
pub open spec fn digit_char(d: nat) -> char {
    if d == 0 {
        '0'
    } else if d == 1 {
        '1'
    } else if d == 2 {
        '2'
    } else if d == 3 {
        '3'
    } else if d == 4 {
        '4'
    } else if d == 5 {
        '5'
    } else if d == 6 {
        '6'
    } else if d == 7 {
        '7'
    } else if d == 8 {
        '8'
    } else {
        '9'
    }
}

/// `n` written in base ten without leading zeros, as `to_string` writes it.
pub open spec fn decimal(n: nat) -> Seq<char>
    decreases n,
{
    if n < 10 {
        seq![digit_char(n)]
    } else {
        decimal(n / 10).push(digit_char(n % 10))
    }
}

proof fn lemma_digit_char(d: nat)
    requires
        d < 10,
    ensures
        is_digit(digit_char(d)),
        digit_value(digit_char(d)) == d,
{
}

/// Reading back what `decimal` writes gives the number again.
pub proof fn lemma_decimal_digits(n: nat)
    ensures
        decimal(n).len() > 0,
        all_digits(decimal(n)),
        digits_value(decimal(n)) == n,
    decreases n,
{
    lemma_digit_char(n % 10);
    if n < 10 {
        assert(decimal(n).drop_last() =~= Seq::<char>::empty());
        assert(digits_value(decimal(n)) == digits_value(Seq::<char>::empty()) * 10 + digit_value(
            digit_char(n),
        ));
    } else {
        lemma_decimal_digits(n / 10);
        assert(decimal(n).drop_last() =~= decimal(n / 10));
        assert(decimal(n).last() == digit_char(n % 10));
        assert(digits_value(decimal(n)) == digits_value(decimal(n / 10)) * 10 + digit_value(
            digit_char(n % 10),
        ));
        assert((n / 10) * 10 + n % 10 == n);
        assert forall|i: int| 0 <= i < decimal(n).len() implies is_digit(
            #[trigger] decimal(n)[i],
        ) by {
            if i < decimal(n).len() - 1 {
                assert(decimal(n)[i] == decimal(n / 10)[i]);
            }
        }
    }
}

/// The one-character string of the digit `d`.
fn digit_str(d: u32) -> (s: &'static str)
    requires
        d < 10,
    ensures
        s@ == seq![digit_char(d as nat)],
{
    if d == 0 {
        proof { reveal_strlit("0"); }
        "0"
    } else if d == 1 {
        proof { reveal_strlit("1"); }
        "1"
    } else if d == 2 {
        proof { reveal_strlit("2"); }
        "2"
    } else if d == 3 {
        proof { reveal_strlit("3"); }
        "3"
    } else if d == 4 {
        proof { reveal_strlit("4"); }
        "4"
    } else if d == 5 {
        proof { reveal_strlit("5"); }
        "5"
    } else if d == 6 {
        proof { reveal_strlit("6"); }
        "6"
    } else if d == 7 {
        proof { reveal_strlit("7"); }
        "7"
    } else if d == 8 {
        proof { reveal_strlit("8"); }
        "8"
    } else {
        proof { reveal_strlit("9"); }
        "9"
    }
}

/// Appends `n` in base ten to `out`.
pub fn push_decimal(out: &mut String, n: u32)
    ensures
        final(out)@ == old(out)@ + decimal(n as nat),
    decreases n,
{
    if n >= 10 {
        push_decimal(out, n / 10);
    }
    out.append(digit_str(n % 10));
    proof {
        if n >= 10 {
            assert(decimal(n as nat) == decimal((n / 10) as nat).push(digit_char((n % 10) as nat)));
        }
    }
}

/// `n.to_string()`.
pub fn decimal_string(n: u32) -> (s: String)
    ensures
        s@ == decimal(n as nat),
{
    let mut s = String::new();
    push_decimal(&mut s, n);
    s
}

// ---------------------------------------------------------------------------
// Laws of the text functions
// ---------------------------------------------------------------------------

/// Every word that `split_ws` yields is non-empty and free of white space.
pub proof fn lemma_words_have_no_space(s: Seq<char>)
    ensures
        forall|i: int|
            0 <= i < split_ws(s).len() ==> #[trigger] split_ws(s)[i].len() > 0 && forall|j: int|
                0 <= j < split_ws(s)[i].len() ==> !is_space(#[trigger] split_ws(s)[i][j]),
    decreases s.len(),
{
    let t = trim_start(s);
    if t.len() > 0 {
        lemma_split_ws_guard(s);
        let e = run_len(t, CharClass::NonSpace);
        lemma_run_len(t, CharClass::NonSpace);
        let rest = t.skip(e as int);
        lemma_words_have_no_space(rest);
        let w = t.take(e as int);
        assert(split_ws(s) == seq![w] + split_ws(rest));
        assert forall|i: int| 0 <= i < split_ws(s).len() implies #[trigger] split_ws(s)[i].len()
            > 0 && forall|j: int|
            0 <= j < split_ws(s)[i].len() ==> !is_space(#[trigger] split_ws(s)[i][j]) by {
            if i == 0 {
                assert(split_ws(s)[0] == w);
                assert forall|j: int| 0 <= j < w.len() implies !is_space(#[trigger] w[j]) by {
                    assert(CharClass::NonSpace.holds(t[j]));
                }
            } else {
                assert(split_ws(s)[i] == split_ws(rest)[i - 1]);
            }
        }
    }
}

/// No line that `lines` yields holds a newline.
pub proof fn lemma_lines_hold_no_newline(s: Seq<char>)
    ensures
        forall|i: int, j: int|
            0 <= i < lines(s).len() && 0 <= j < lines(s)[i].len() ==> #[trigger] lines(s)[i][j]
                != '\n',
    decreases s.len(),
{
    if s.len() > 0 {
        let e = run_len(s, CharClass::NotNewline);
        lemma_run_len(s, CharClass::NotNewline);
        if e < s.len() {
            let rest = s.skip(e + 1int);
            lemma_lines_hold_no_newline(rest);
            let l = strip_cr(s.take(e as int));
            assert(lines(s) == seq![l] + lines(rest));
            assert forall|i: int, j: int|
                0 <= i < lines(s).len() && 0 <= j < lines(s)[i].len() implies #[trigger] lines(
                s,
            )[i][j] != '\n' by {
                if i == 0 {
                    assert(lines(s)[0] == l);
                    assert(l[j] == s[j]);
                    assert(CharClass::NotNewline.holds(s[j]));
                } else {
                    assert(lines(s)[i] == lines(rest)[i - 1]);
                }
            }
        } else {
            assert(lines(s) == seq![s]);
            assert forall|i: int, j: int|
                0 <= i < lines(s).len() && 0 <= j < lines(s)[i].len() implies #[trigger] lines(
                s,
            )[i][j] != '\n' by {
                assert(lines(s)[i] == s);
                assert(CharClass::NotNewline.holds(s[j]));
            }
        }
    }
}

/// What reads as an unsigned number is exactly one or more digits, with an
/// optional leading `+`.
pub proof fn lemma_unsigned_shape(s: Seq<char>)
    ensures
        parse_unsigned(s) is Some <==> (s.len() > 0 && forall|i: int|
            0 <= i < s.len() ==> is_digit(#[trigger] s[i])) || (s.len() > 1 && s[0] == '+'
            && forall|i: int| 1 <= i < s.len() ==> is_digit(#[trigger] s[i])),
{
    if s.len() > 0 && s[0] == '+' {
        let d = s.drop_first();
        assert(!is_digit(s[0]));
        if d.len() > 0 && all_digits(d) {
            assert forall|i: int| 1 <= i < s.len() implies is_digit(#[trigger] s[i]) by {
                assert(s[i] == d[i - 1]);
            }
        }
        if s.len() > 1 && forall|i: int| 1 <= i < s.len() ==> is_digit(#[trigger] s[i]) {
            assert forall|i: int| 0 <= i < d.len() implies is_digit(#[trigger] d[i]) by {
                assert(d[i] == s[i + 1]);
            }
        }
    }
}

/// A number written by `decimal` reads back as itself, and only zero is
/// written with a leading `0`.
pub proof fn lemma_decimal_reads_back(n: u32)
    ensures
        parse_unsigned(decimal(n as nat)) == Some(n as nat),
        parse_u32(decimal(n as nat)) == Some(n),
        decimal(n as nat)[0] == '0' <==> n == 0,
{
    lemma_decimal_digits(n as nat);
    assert(is_digit(decimal(n as nat)[0]));
    lemma_decimal_leading_zero(n as nat);
}

proof fn lemma_decimal_leading_zero(n: nat)
    ensures
        decimal(n)[0] == '0' <==> n == 0,
    decreases n,
{
    if n < 10 {
        lemma_digit_char(n);
    } else {
        lemma_decimal_leading_zero(n / 10);
        lemma_decimal_digits(n / 10);
        assert(decimal(n)[0] == decimal(n / 10)[0]);
    }
}

/// Trimming removes white space from both ends and nothing else: the result
/// is a piece of `s`, everything cut away is white space, and the result
/// neither starts nor ends with white space.
pub proof fn lemma_trim(s: Seq<char>)
    ensures
        exists|a: int, b: int|
            #![trigger s.subrange(a, b)]
            {
                &&& 0 <= a <= b <= s.len()
                &&& trim(s) == s.subrange(a, b)
                &&& forall|i: int| 0 <= i < a ==> is_space(#[trigger] s[i])
                &&& forall|i: int| b <= i < s.len() ==> is_space(#[trigger] s[i])
                &&& a < b ==> !is_space(s[a]) && !is_space(s[b - 1])
            },
{
    lemma_run_len(s, CharClass::Space);
    let a = run_len(s, CharClass::Space) as int;
    let t = s.skip(a);
    lemma_back_run_len(t, CharClass::Space);
    let r = back_run_len(t, CharClass::Space) as int;
    let b = s.len() - r;
    assert(t.take(t.len() - r) =~= s.subrange(a, b));
    assert forall|i: int| 0 <= i < a implies is_space(#[trigger] s[i]) by {
        assert(CharClass::Space.holds(s[i]));
    }
    assert forall|i: int| b <= i < s.len() implies is_space(#[trigger] s[i]) by {
        assert(t[i - a] == s[i]);
        assert(CharClass::Space.holds(t[i - a]));
    }
    if a < b {
        assert(t[b - 1 - a] == s[b - 1]);
    }
    assert(trim(s) == s.subrange(a, b));
}

} // verus!
