//! Character-level text handling: whitespace, trimming, collapsing, truncation,
//! searching and ordering, all stated over the `Seq<char>` view of strings.
use vstd::prelude::*;

verus! {

/// Unicode `White_Space`, the property that `char::is_whitespace` tests.
pub open spec fn is_white_space(c: char) -> bool {
    let v = c as u32;
    ||| 0x09 <= v <= 0x0d
    ||| v == 0x20
    ||| v == 0x85
    ||| v == 0xa0
    ||| v == 0x1680
    ||| 0x2000 <= v <= 0x200a
    ||| v == 0x2028
    ||| v == 0x2029
    ||| v == 0x202f
    ||| v == 0x205f
    ||| v == 0x3000
}

/// Whether `c` has the Unicode `White_Space` property (what
/// `char::is_whitespace` tests).
pub fn is_whitespace(c: char) -> (r: bool)
    ensures
        r == is_white_space(c),
{
    let v = c as u32;
    (0x09 <= v && v <= 0x0d) || v == 0x20 || v == 0x85 || v == 0xa0 || v == 0x1680 || (0x2000 <= v && v
        <= 0x200a) || v == 0x2028 || v == 0x2029 || v == 0x202f || v == 0x205f || v == 0x3000
}

/// The characters of `s`, in order, read with `str::chars`.
pub fn chars_of(s: &str) -> (r: Vec<char>)
    ensures
        r@ == s@,
{
    broadcast use vstd::string::axiom_spec_iter, vstd::string::next_postcondition;
    let mut it = s.chars();
    let mut r: Vec<char> = Vec::new();
    loop
        invariant
            r@ + vstd::std_specs::iter::IteratorSpec::remaining(&it) == s@,
            vstd::std_specs::iter::IteratorSpec::obeys_prophetic_iter_laws(&it),
            vstd::std_specs::iter::IteratorSpec::decrease(&it) is Some,
        ensures
            r@ == s@,
        decreases vstd::std_specs::iter::IteratorSpec::decrease(&it)->0,
    {
        match it.next() {
            Some(c) => {
                assert(r@.push(c) + vstd::std_specs::iter::IteratorSpec::remaining(&it) =~= s@);
                r.push(c);
            },
            None => {
                assert(r@ =~= s@);
                break;
            },
        }
    }
    r
}

/// Collecting characters into a `String`: the string made of `cs`, in order.
#[verifier::external_body]
pub fn string_of(cs: &[char]) -> (r: String)
    ensures
        r@ == cs@,
{
    cs.iter().collect()
}

/// `s` without its leading white space.
pub open spec fn trim_start(s: Seq<char>) -> Seq<char>
    decreases s.len(),
{
    if s.len() > 0 && is_white_space(s[0]) {
        trim_start(s.drop_first())
    } else {
        s
    }
}

/// `s` without its trailing white space.
pub open spec fn trim_end(s: Seq<char>) -> Seq<char>
    decreases s.len(),
{
    if s.len() > 0 && is_white_space(s.last()) {
        trim_end(s.drop_last())
    } else {
        s
    }
}

/// `s` without white space at either end (what `str::trim` gives).
pub open spec fn trim(s: Seq<char>) -> Seq<char> {
    trim_end(trim_start(s))
}

/// The words of `s` (its maximal runs of non-white-space characters), joined
/// by single spaces: what `split_whitespace` followed by `join(" ")` gives.
/// Stated as a scan: a word character is appended, preceded by one space when
/// white space separates it from an earlier word.
pub open spec fn collapse(s: Seq<char>) -> Seq<char>
    decreases s.len(),
{
    if s.len() == 0 {
        s
    } else {
        let p = collapse(s.drop_last());
        let c = s.last();
        if is_white_space(c) {
            p
        } else if s.len() >= 2 && is_white_space(s[s.len() - 2]) && p.len() > 0 {
            p.push(' ').push(c)
        } else {
            p.push(c)
        }
    }
}

/// The single-line form of `value`, cut to `max_chars` characters; a cut
/// string ends in an ellipsis when there is room for one.
pub open spec fn truncated(value: Seq<char>, max_chars: nat) -> Seq<char> {
    let line = collapse(value);
    if line.len() <= max_chars {
        line
    } else if max_chars > 1 {
        line.take(max_chars - 1).push('…')
    } else {
        line.take(max_chars as int)
    }
}

/// The characters of `s` with white space removed at both ends.
pub fn trim_chars(s: &Vec<char>) -> (r: Vec<char>)
    ensures
        r@ == trim(s@),
{
    let n = s.len();
    let mut i: usize = 0;
    assert(s@.skip(0) =~= s@);
    while i < n && is_whitespace(s[i])
        invariant
            i <= n,
            n == s@.len(),
            trim_start(s@) == trim_start(s@.skip(i as int)),
        decreases n - i,
    {
        assert(s@.skip(i as int).drop_first() =~= s@.skip(i + 1));
        i = i + 1;
    }
    assert(trim_start(s@) == s@.skip(i as int));
    let mut j: usize = n;
    while j > i && is_whitespace(s[j - 1])
        invariant
            i <= j <= n,
            n == s@.len(),
            trim_start(s@) == s@.skip(i as int),
            trim(s@) == trim_end(s@.subrange(i as int, j as int)),
        decreases j,
    {
        assert(s@.subrange(i as int, j as int).drop_last() =~= s@.subrange(i as int, j - 1));
        j = j - 1;
    }
    assert(s@.skip(i as int) =~= s@.subrange(i as int, n as int));
    let mut r: Vec<char> = Vec::new();
    let mut k: usize = i;
    while k < j
        invariant
            i <= k <= j <= n,
            n == s@.len(),
            r@ =~= s@.subrange(i as int, k as int),
        decreases j - k,
    {
        r.push(s[k]);
        k = k + 1;
    }
    r
}

/// The words of `s` joined by single spaces.
pub fn collapse_chars(s: &Vec<char>) -> (r: Vec<char>)
    ensures
        r@ == collapse(s@),
{
    let n = s.len();
    let mut r: Vec<char> = Vec::new();
    let mut i: usize = 0;
    assert(s@.take(0) =~= Seq::<char>::empty());
    while i < n
        invariant
            i <= n,
            n == s@.len(),
            r@ == collapse(s@.take(i as int)),
        decreases n - i,
    {
        let c = s[i];
        let ghost t = s@.take(i + 1);
        assert(t.drop_last() =~= s@.take(i as int));
        if !is_whitespace(c) {
            if i > 0 && is_whitespace(s[i - 1]) && r.len() > 0 {
                r.push(' ');
            }
            r.push(c);
        }
        i = i + 1;
    }
    assert(s@.take(n as int) =~= s@);
    r
}

/// `value` on a single line, cut to at most `max_chars` characters; a value
/// that is cut ends in `…` when `max_chars` leaves room for it.
pub fn truncate(value: &str, max_chars: usize) -> (r: String)
    ensures
        r@ == truncated(value@, max_chars as nat),
        r@.len() <= max_chars,
{
    let cs = chars_of(value);
    let line = collapse_chars(&cs);
    if line.len() <= max_chars {
        string_of(line.as_slice())
    } else {
        let keep: usize = if max_chars > 1 { max_chars - 1 } else { max_chars };
        let mut out: Vec<char> = Vec::new();
        let mut k: usize = 0;
        while k < keep
            invariant
                k <= keep < line@.len(),
                out@ =~= line@.take(k as int),
            decreases keep - k,
        {
            out.push(line[k]);
            k = k + 1;
        }
        if max_chars > 1 {
            out.push('…');
        }
        string_of(out.as_slice())
    }
}

/// `needle` occurs in `s` starting at index `i`.
pub open spec fn occurs_at(s: Seq<char>, needle: Seq<char>, i: int) -> bool {
    &&& 0 <= i
    &&& i + needle.len() <= s.len()
    &&& s.subrange(i, i + needle.len()) =~= needle
}

/// `needle` occurs somewhere in `s` (what `str::contains` tests).
pub open spec fn contains_seq(s: Seq<char>, needle: Seq<char>) -> bool {
    exists|i: int| #[trigger] occurs_at(s, needle, i)
}

/// Whether `needle` occurs in `s` at index `i`.
pub fn occurs_at_index(s: &Vec<char>, needle: &Vec<char>, i: usize) -> (r: bool)
    ensures
        r == occurs_at(s@, needle@, i as int),
{
    let n = s.len();
    let m = needle.len();
    if i > n || m > n - i {
        return false;
    }
    let mut j: usize = 0;
    while j < m
        invariant
            j <= m,
            i + m <= n,
            n == s@.len(),
            m == needle@.len(),
            forall|t: int| 0 <= t < j ==> s@[i + t] == needle@[t],
        decreases m - j,
    {
        if s[i + j] != needle[j] {
            assert(s@.subrange(i as int, i + m)[j as int] != needle@[j as int]);
            return false;
        }
        j = j + 1;
    }
    assert(s@.subrange(i as int, i + m) =~= needle@);
    true
}

/// Whether `needle` occurs anywhere in `s`.
pub fn contains_chars(s: &Vec<char>, needle: &Vec<char>) -> (r: bool)
    ensures
        r == contains_seq(s@, needle@),
{
    let n = s.len();
    let m = needle.len();
    if m > n {
        assert forall|k: int| !occurs_at(s@, needle@, k) by {}
        return false;
    }
    let mut i: usize = 0;
    while i <= n - m
        invariant
            m <= n,
            n == s@.len(),
            m == needle@.len(),
            i <= n - m + 1,
            forall|k: int| 0 <= k < i ==> !#[trigger] occurs_at(s@, needle@, k),
        decreases n - m + 1 - i,
    {
        if occurs_at_index(s, needle, i) {
            return true;
        }
        i = i + 1;
    }
    assert forall|k: int| !#[trigger] occurs_at(s@, needle@, k) by {
        if 0 <= k < i {
        }
    }
    false
}

/// Whether `s` begins with `prefix`.
pub fn starts_with_chars(s: &Vec<char>, prefix: &Vec<char>) -> (r: bool)
    ensures
        r == prefix@.is_prefix_of(s@),
{
    let r = occurs_at_index(s, prefix, 0);
    r
}

/// Whether the first character of `s` is `c`.
pub open spec fn starts_with_char(s: Seq<char>, c: char) -> bool {
    s.len() > 0 && s[0] == c
}

/// Lexicographic order on character sequences, comparing code points; for
/// strings this is the order of `str`'s `Ord`, since UTF-8 keeps code-point
/// order.
pub open spec fn seq_lt(a: Seq<char>, b: Seq<char>) -> bool
    decreases a.len(),
{
    if a.len() == 0 {
        b.len() > 0
    } else if b.len() == 0 {
        false
    } else if a[0] != b[0] {
        a[0] < b[0]
    } else {
        seq_lt(a.drop_first(), b.drop_first())
    }
}

/// No sequence comes before itself.
pub proof fn lemma_seq_lt_irreflexive(a: Seq<char>)
    ensures
        !seq_lt(a, a),
    decreases a.len(),
{
    if a.len() > 0 {
        lemma_seq_lt_irreflexive(a.drop_first());
    }
}

/// Of two sequences, at most one comes before the other.
pub proof fn lemma_seq_lt_asymmetric(a: Seq<char>, b: Seq<char>)
    requires
        seq_lt(a, b),
    ensures
        !seq_lt(b, a),
    decreases a.len(),
{
    if a.len() > 0 && b.len() > 0 && a[0] == b[0] {
        lemma_seq_lt_asymmetric(a.drop_first(), b.drop_first());
    }
}

/// The order is transitive.
pub proof fn lemma_seq_lt_transitive(a: Seq<char>, b: Seq<char>, c: Seq<char>)
    requires
        seq_lt(a, b),
        seq_lt(b, c),
    ensures
        seq_lt(a, c),
    decreases a.len(),
{
    if a.len() > 0 && b.len() > 0 && c.len() > 0 && a[0] == b[0] && b[0] == c[0] {
        lemma_seq_lt_transitive(a.drop_first(), b.drop_first(), c.drop_first());
    }
}

/// Of two different sequences, one comes before the other.
pub proof fn lemma_seq_lt_total(a: Seq<char>, b: Seq<char>)
    requires
        a != b,
    ensures
        seq_lt(a, b) || seq_lt(b, a),
    decreases a.len(),
{
    if a.len() > 0 && b.len() > 0 && a[0] == b[0] {
        if a.drop_first() == b.drop_first() {
            assert(a =~= seq![a[0]] + a.drop_first());
            assert(b =~= seq![b[0]] + b.drop_first());
        }
        lemma_seq_lt_total(a.drop_first(), b.drop_first());
    } else if a.len() == 0 && b.len() == 0 {
        assert(a =~= b);
    } else if a.len() > 0 && b.len() > 0 {
        assert(a[0] < b[0] || b[0] < a[0]);
    }
}

/// The outcome of comparing two character sequences.
#[derive(Clone, Copy, Debug, PartialEq, Eq, Structural)]
pub enum Order {
    Less,
    Equal,
    Greater,
}

/// Compares `a` with `b` in lexicographic code-point order.
pub fn compare_chars(a: &Vec<char>, b: &Vec<char>) -> (r: Order)
    ensures
        r == Order::Less <==> seq_lt(a@, b@),
        r == Order::Equal <==> a@ == b@,
        r == Order::Greater <==> seq_lt(b@, a@),
{
    let n = a.len();
    let m = b.len();
    let mut i: usize = 0;
    assert(a@.skip(0) =~= a@);
    assert(b@.skip(0) =~= b@);
    while i < n && i < m && a[i] == b[i]
        invariant
            i <= n,
            i <= m,
            n == a@.len(),
            m == b@.len(),
            seq_lt(a@, b@) == seq_lt(a@.skip(i as int), b@.skip(i as int)),
            seq_lt(b@, a@) == seq_lt(b@.skip(i as int), a@.skip(i as int)),
            forall|k: int| 0 <= k < i ==> a@[k] == b@[k],
        decreases n - i,
    {
        assert(a@.skip(i as int).drop_first() =~= a@.skip(i + 1));
        assert(b@.skip(i as int).drop_first() =~= b@.skip(i + 1));
        i = i + 1;
    }
    proof {
        lemma_seq_lt_irreflexive(a@);
        if seq_lt(a@, b@) {
            lemma_seq_lt_asymmetric(a@, b@);
        }
    }
    if i < n && i < m {
        assert(a@.skip(i as int)[0] == a@[i as int]);
        assert(b@.skip(i as int)[0] == b@[i as int]);
        assert(a@ != b@) by {
            assert(a@[i as int] != b@[i as int]);
        }
        if a[i] < b[i] {
            Order::Less
        } else {
            Order::Greater
        }
    } else if i < n {
        assert(a@ != b@) by {
            assert(a@.len() != b@.len());
        }
        Order::Greater
    } else if i < m {
        assert(a@ != b@) by {
            assert(a@.len() != b@.len());
        }
        Order::Less
    } else {
        assert(a@ =~= b@);
        Order::Equal
    }
}

/// Whether `a` and `b` hold the same characters.
pub fn equal_chars(a: &Vec<char>, b: &Vec<char>) -> (r: bool)
    ensures
        r == (a@ == b@),
{
    compare_chars(a, b) == Order::Equal
}

/// The decimal digit for `d`, when `d < 10`.
pub open spec fn digit(d: nat) -> char {
    if d == 0 { '0' }
    else if d == 1 { '1' }
    else if d == 2 { '2' }
    else if d == 3 { '3' }
    else if d == 4 { '4' }
    else if d == 5 { '5' }
    else if d == 6 { '6' }
    else if d == 7 { '7' }
    else if d == 8 { '8' }
    else { '9' }
}

/// The decimal numeral of `n`, without leading zeros.
pub open spec fn decimal(n: nat) -> Seq<char>
    decreases n,
{
    if n < 10 {
        seq![digit(n)]
    } else {
        decimal(n / 10).push(digit(n % 10))
    }
}

fn digit_char(d: u64) -> (r: char)
    requires
        d < 10,
    ensures
        r == digit(d as nat),
{
    if d == 0 { '0' }
    else if d == 1 { '1' }
    else if d == 2 { '2' }
    else if d == 3 { '3' }
    else if d == 4 { '4' }
    else if d == 5 { '5' }
    else if d == 6 { '6' }
    else if d == 7 { '7' }
    else if d == 8 { '8' }
    else { '9' }
}

/// The decimal digits of `n`.
pub fn decimal_chars(n: u64) -> (r: Vec<char>)
    ensures
        r@ == decimal(n as nat),
    decreases n,
{
    if n < 10 {
        let mut v: Vec<char> = Vec::new();
        v.push(digit_char(n));
        assert(v@ =~= seq![digit(n as nat)]);
        v
    } else {
        let mut v = decimal_chars(n / 10);
        v.push(digit_char(n % 10));
        v
    }
}

/// `s` followed by spaces up to `width` characters (what the `{:<width}`
/// format gives).
pub open spec fn padded(s: Seq<char>, width: nat) -> Seq<char> {
    if s.len() >= width {
        s
    } else {
        s + Seq::new((width - s.len()) as nat, |i: int| ' ')
    }
}

/// `s` padded with spaces to `width` characters.
pub fn pad_right(s: &Vec<char>, width: usize) -> (r: Vec<char>)
    ensures
        r@ == padded(s@, width as nat),
{
    let mut r: Vec<char> = Vec::new();
    let mut i: usize = 0;
    while i < s.len()
        invariant
            i <= s@.len(),
            r@ =~= s@.take(i as int),
        decreases s@.len() - i,
    {
        r.push(s[i]);
        i = i + 1;
    }
    assert(s@.take(s@.len() as int) =~= s@);
    let mut k: usize = s.len();
    while k < width
        invariant
            s@.len() <= k <= width || (k == s@.len() && k >= width),
            r@.len() == k,
            forall|j: int| 0 <= j < s@.len() ==> r@[j] == s@[j],
            forall|j: int| s@.len() <= j < k ==> r@[j] == ' ',
        decreases width - k,
    {
        r.push(' ');
        k = k + 1;
    }
    assert(r@ =~= padded(s@, width as nat));
    r
}

/// Appends the characters of `t` to `v`.
pub fn push_all(v: &mut Vec<char>, t: &Vec<char>)
    ensures
        final(v)@ == old(v)@ + t@,
{
    let mut i: usize = 0;
    while i < t.len()
        invariant
            i <= t@.len(),
            v@ =~= old(v)@ + t@.take(i as int),
        decreases t@.len() - i,
    {
        v.push(t[i]);
        i = i + 1;
    }
    assert(t@.take(t@.len() as int) =~= t@);
}

/// Whether `s` is a decimal numeral: one ASCII digit or more, nothing else.
pub open spec fn is_numeral(s: Seq<char>) -> bool {
    s.len() > 0 && forall|i: int| 0 <= i < s.len() ==> '0' <= #[trigger] s[i] && s[i] <= '9'
}

/// The value of a decimal numeral.
pub open spec fn numeral_value(s: Seq<char>) -> int
    decreases s.len(),
{
    if s.len() == 0 {
        0
    } else {
        numeral_value(s.drop_last()) * 10 + (s.last() as int - '0' as int)
    }
}

/// The digits of an unsigned number: what follows an optional leading `+`.
pub open spec fn unsigned_digits(s: Seq<char>) -> Seq<char> {
    if s.len() > 0 && s[0] == '+' {
        s.drop_first()
    } else {
        s
    }
}

/// What `str::parse::<usize>` reads from `s`: the value of the digits that
/// follow an optional leading `+`, when there is at least one, all are ASCII
/// digits and the value fits; anything else (an empty string, a lone sign, a
/// `-`, any other character, a value too large) is an error.
pub open spec fn usize_parse(s: Seq<char>) -> Option<usize> {
    let d = unsigned_digits(s);
    if is_numeral(d) && numeral_value(d) <= usize::MAX {
        Some(numeral_value(d) as usize)
    } else {
        None
    }
}

/// A numeral's prefixes never have a larger value than longer ones, and
/// none is negative.
proof fn lemma_numeral_prefixes(d: Seq<char>, j: int, k: int)
    requires
        0 <= j <= k <= d.len(),
        forall|i: int| 0 <= i < d.len() ==> '0' <= #[trigger] d[i] && d[i] <= '9',
    ensures
        0 <= numeral_value(d.take(j)) <= numeral_value(d.take(k)),
    decreases k,
{
    if k > 0 {
        assert(d.take(k).drop_last() =~= d.take(k - 1));
        assert(d.take(k).last() == d[k - 1]);
        if j < k {
            lemma_numeral_prefixes(d, j, k - 1);
        } else {
            lemma_numeral_prefixes(d, j - 1, k - 1);
        }
    } else {
        assert(d.take(0) =~= Seq::<char>::empty());
    }
}

/// The value of the unsigned numeral in `s` (after an optional `+`) when it
/// is one and its value is at most `max`.
fn numeral_at_most(s: &str, max: u64) -> (r: Option<u64>)
    requires
        max >= 9,
    ensures
        r == if is_numeral(unsigned_digits(s@)) && numeral_value(unsigned_digits(s@)) <= max {
            Some(numeral_value(unsigned_digits(s@)) as u64)
        } else {
            None::<u64>
        },
        r matches Some(v) ==> v <= max && v == numeral_value(unsigned_digits(s@)),
{
    let cs = chars_of(s);
    let ghost d = unsigned_digits(s@);
    let start: usize = if cs.len() > 0 && cs[0] == '+' { 1 } else { 0 };
    assert(d =~= cs@.skip(start as int));
    if start >= cs.len() {
        return None;
    }
    let mut acc: u64 = 0;
    let mut over = false;
    let mut i: usize = start;
    assert(d.take(0) =~= Seq::<char>::empty());
    while i < cs.len()
        invariant
            start <= i <= cs@.len(),
            start < cs@.len(),
            d == cs@.skip(start as int),
            d == unsigned_digits(s@),
            max >= 9,
            forall|k: int| 0 <= k < i - start ==> '0' <= #[trigger] d[k] && d[k] <= '9',
            !over ==> acc == numeral_value(d.take(i - start)) && acc <= max,
            over ==> numeral_value(d.take(i - start)) > max,
        decreases cs@.len() - i,
    {
        let c = cs[i];
        assert(d[i - start] == c);
        if !('0' <= c && c <= '9') {
            assert(!is_numeral(d));
            return None;
        }
        let ghost n = (i - start) as int;
        assert(d.take(n + 1).drop_last() =~= d.take(n));
        assert(d.take(n + 1).last() == c);
        let digit: u64 = (c as u32 - '0' as u32) as u64;
        assert(digit <= 9);
        if !over {
            if acc > (max - digit) / 10 {
                assert(acc * 10 + digit > max) by (nonlinear_arith)
                    requires
                        acc > (max - digit) / 10,
                        digit <= max || digit > max,
                ;
                over = true;
            } else {
                assert(acc * 10 + digit <= max) by (nonlinear_arith)
                    requires
                        acc <= (max - digit) / 10,
                        digit <= 9,
                        max >= 0,
                ;
                acc = acc * 10 + digit;
            }
        } else {
            proof {
                assert forall|k: int| 0 <= k < n + 1 implies '0' <= #[trigger] d.take(n + 1)[k] && d.take(n + 1)[k] <= '9' by {}
                lemma_numeral_prefixes(d.take(n + 1), n, n + 1);
                assert(d.take(n + 1).take(n) =~= d.take(n));
                assert(d.take(n + 1).take(n + 1) =~= d.take(n + 1));
            }
        }
        i = i + 1;
    }
    assert(d.take(d.len() as int) =~= d);
    if over {
        None
    } else {
        Some(acc)
    }
}

/// `str::parse::<usize>`, with the error dropped.
pub fn parse_usize(s: &str) -> (r: Option<usize>)
    ensures
        r == usize_parse(s@),
{
    match numeral_at_most(s, usize::MAX as u64) {
        Some(v) => {
            assert(v <= usize::MAX);
            Some(v as usize)
        },
        None => None,
    }
}

/// What `str::parse::<u32>` reads from `s`: as `usize_parse`, within the
/// range of `u32`.
pub open spec fn u32_parse(s: Seq<char>) -> Option<u32> {
    let d = unsigned_digits(s);
    if is_numeral(d) && numeral_value(d) <= u32::MAX {
        Some(numeral_value(d) as u32)
    } else {
        None
    }
}

/// `str::parse::<u32>`, with the error dropped.
pub fn parse_u32(s: &str) -> (r: Option<u32>)
    ensures
        r == u32_parse(s@),
{
    match numeral_at_most(s, u32::MAX as u64) {
        Some(v) => {
            assert(v <= u32::MAX);
            Some(v as u32)
        },
        None => None,
    }
}

/// Filtering a sequence with one more element at its end.
proof fn lemma_filter_push_last(x: Seq<char>, c: char, pred: spec_fn(char) -> bool)
    ensures
        x.push(c).filter(pred) == if pred(c) {
            x.filter(pred).push(c)
        } else {
            x.filter(pred)
        },
{
    reveal(Seq::filter);
    assert(x.push(c).drop_last() =~= x);
}

/// Collapsed text is one line of words: every white-space character left is
/// a single space between two words (none at either end, none doubled), and
/// the words' characters are those of the text, in order.
pub proof fn law_collapsed_text_is_one_spaced_line(s: Seq<char>)
    ensures
        forall|i: int|
            0 <= i < collapse(s).len() && #[trigger] is_white_space(collapse(s)[i]) ==> collapse(s)[i] == ' ' && 0 < i
                < collapse(s).len() - 1 && !is_white_space(collapse(s)[i - 1]) && !is_white_space(collapse(s)[i + 1]),
        collapse(s).filter(|c: char| !is_white_space(c)) == s.filter(|c: char| !is_white_space(c)),
        collapse(s).len() > 0 ==> !is_white_space(collapse(s)[0]) && !is_white_space(collapse(s).last()),
    decreases s.len(),
{
    let word = |c: char| !is_white_space(c);
    if s.len() > 0 {
        let d = s.drop_last();
        let c = s.last();
        law_collapsed_text_is_one_spaced_line(d);
        let p = collapse(d);
        assert(s =~= d.push(c));
        lemma_filter_push_last(d, c, word);
        assert(' ' as u32 == 32);
        if is_white_space(c) {
        } else if s.len() >= 2 && is_white_space(s[s.len() - 2]) && p.len() > 0 {
            let r = p.push(' ').push(c);
            assert(collapse(s) == r);
            lemma_filter_push_last(p, ' ', word);
            lemma_filter_push_last(p.push(' '), c, word);
            assert forall|i: int| 0 <= i < r.len() && #[trigger] is_white_space(r[i]) implies r[i] == ' ' && 0 < i < r.len()
                - 1 && !is_white_space(r[i - 1]) && !is_white_space(r[i + 1]) by {
                if i < p.len() {
                    assert(r[i] == p[i]);
                    if i + 1 < p.len() {
                        assert(r[i + 1] == p[i + 1]);
                    }
                    assert(r[i - 1] == p[i - 1]);
                } else if i == p.len() {
                    assert(r[i - 1] == p.last());
                    assert(r[i + 1] == c);
                }
            }
            assert(r[0] == p[0]);
        } else {
            let r = p.push(c);
            assert(collapse(s) == r);
            lemma_filter_push_last(p, c, word);
            assert forall|i: int| 0 <= i < r.len() && #[trigger] is_white_space(r[i]) implies r[i] == ' ' && 0 < i < r.len()
                - 1 && !is_white_space(r[i - 1]) && !is_white_space(r[i + 1]) by {
                assert(r[i] == p[i]);
                assert(r[i - 1] == p[i - 1]);
                if i + 1 < p.len() {
                    assert(r[i + 1] == p[i + 1]);
                }
            }
            if p.len() > 0 {
                assert(r[0] == p[0]);
            }
        }
    } else {
        assert(s.filter(word) =~= Seq::<char>::empty()) by {
            reveal(Seq::filter);
        }
    }
}

/// A truncated value is at most `max_chars` long; it is the whole collapsed
/// text when that fits, and otherwise a beginning of it, ending in an
/// ellipsis that takes the last place when there are at least two places.
pub proof fn law_truncation_keeps_a_beginning(value: Seq<char>, max_chars: nat)
    ensures
        truncated(value, max_chars).len() <= max_chars,
        collapse(value).len() <= max_chars ==> truncated(value, max_chars) == collapse(value),
        collapse(value).len() > max_chars && max_chars > 1 ==> {
            &&& truncated(value, max_chars).len() == max_chars
            &&& truncated(value, max_chars).last() == '…'
            &&& truncated(value, max_chars).drop_last().is_prefix_of(collapse(value))
        },
        collapse(value).len() > max_chars && max_chars <= 1 ==> truncated(value, max_chars).len() == max_chars
            && truncated(value, max_chars).is_prefix_of(collapse(value)),
{
    let line = collapse(value);
    if line.len() > max_chars {
        if max_chars > 1 {
            assert(line.take(max_chars - 1).push('…').drop_last() =~= line.take(max_chars - 1));
        }
    }
}

} // verus!
