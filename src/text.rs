//! Character-level helpers shared by the parsers: turning a string into its
//! characters, splitting on a delimiter or on whitespace, and reading and
//! writing decimal integers.
use vstd::prelude::*;
use vstd::std_specs::iter::IteratorSpec;
use vstd::string::{StrSliceExecFns, StringExecFns};

verus! {

broadcast use vstd::string::group_string_axioms;

/// The characters of `s`, in order.
pub fn chars_of(s: &str) -> (r: Vec<char>)
    ensures
        r@ == s@,
{
    let mut it = s.chars();
    let mut out: Vec<char> = Vec::new();
    loop
        invariant
            out@ + it.remaining() == s@,
            it.obeys_prophetic_iter_laws(),
            it.decrease() is Some,
        ensures
            out@ == s@,
        decreases it.decrease()->0,
    {
        match it.next() {
            Some(c) => {
                out.push(c);
            },
            None => {
                assert(out@ + it.remaining() =~= out@);
                break;
            },
        }
    }
    out
}

/// Which characters end a field when a string is cut into pieces.
#[derive(Clone, Copy)]
pub enum Separator {
    /// One given character.
    Char(char),
    /// Any ASCII whitespace character.
    Space,
}

/// ASCII whitespace: space, tab, line feed, form feed and carriage return.
pub open spec fn is_space(c: char) -> bool {
    c == ' ' || c == '\t' || c == '\n' || c == '\x0C' || c == '\r'
}

impl Separator {
    pub open spec fn spec_matches(self, c: char) -> bool {
        match self {
            Separator::Char(d) => c == d,
            Separator::Space => is_space(c),
        }
    }

    pub fn matches(&self, c: char) -> (r: bool)
        ensures
            r == self.spec_matches(c),
    {
        match self {
            Separator::Char(d) => c == *d,
            Separator::Space => c == ' ' || c == '\t' || c == '\n' || c == '\x0C' || c == '\r',
        }
    }
}

/// The pieces of `s` between separators, empty pieces included: a string
/// with `k` separators has `k + 1` pieces.
pub open spec fn fields(s: Seq<char>, sep: Separator) -> Seq<Seq<char>>
    decreases s.len(),
{
    if s.len() == 0 {
        seq![Seq::empty()]
    } else {
        let f = fields(s.drop_last(), sep);
        if sep.spec_matches(s.last()) {
            f.push(Seq::empty())
        } else {
            f.update(f.len() - 1, f.last().push(s.last()))
        }
    }
}

pub open spec fn non_empty(w: Seq<char>) -> bool {
    w.len() > 0
}

/// The whitespace-separated words of `s`.
pub open spec fn words(s: Seq<char>) -> Seq<Seq<char>> {
    fields(s, Separator::Space).filter(|w: Seq<char>| non_empty(w))
}

/// What a vector of strings holds, as character sequences.
pub open spec fn string_views(v: Seq<String>) -> Seq<Seq<char>> {
    v.map_values(|x: String| x@)
}

proof fn lemma_fields_not_empty(s: Seq<char>, sep: Separator)
    ensures
        fields(s, sep).len() >= 1,
    decreases s.len(),
{
    if s.len() > 0 {
        lemma_fields_not_empty(s.drop_last(), sep);
    }
}

/// Cuts `s` at every separator; with `drop_empty`, empty pieces are left out.
fn cut(s: &str, sep: Separator, drop_empty: bool) -> (r: Vec<String>)
    ensures
        string_views(r@) == if drop_empty {
            fields(s@, sep).filter(|w: Seq<char>| non_empty(w))
        } else {
            fields(s@, sep)
        },
{
    let cs = chars_of(s);
    let n = cs.len();
    let mut out: Vec<String> = Vec::new();
    let mut start: usize = 0;
    let mut i: usize = 0;
    let ghost ne = |w: Seq<char>| non_empty(w);
    while i < n
        invariant
            cs@ == s@,
            n == cs@.len(),
            start <= i <= n,
            ne == (|w: Seq<char>| non_empty(w)),
            fields(s@.take(i as int), sep).len() >= 1,
            fields(s@.take(i as int), sep).last() == s@.subrange(start as int, i as int),
            string_views(out@) == if drop_empty {
                fields(s@.take(i as int), sep).drop_last().filter(ne)
            } else {
                fields(s@.take(i as int), sep).drop_last()
            },
        decreases n - i,
    {
        let c = cs[i];
        proof {
            let t = s@.take(i as int + 1);
            assert(t.drop_last() =~= s@.take(i as int));
            assert(t.last() == c);
            lemma_fields_not_empty(s@.take(i as int), sep);
        }
        if sep.matches(c) {
            let piece = s.substring_char(start, i);
            let keep = !drop_empty || i > start;
            proof {
                let f = fields(s@.take(i as int), sep);
                let g = fields(s@.take(i as int + 1), sep);
                assert(g.drop_last() =~= f);
                assert(f =~= f.drop_last().push(f.last()));
                reveal(Seq::filter);
                assert(f.filter(ne) == if non_empty(f.last()) {
                    f.drop_last().filter(ne).push(f.last())
                } else {
                    f.drop_last().filter(ne)
                });
                assert(piece@.len() == i - start);
            }
            if keep {
                let ghost before = out@;
                out.push(String::from_str(piece));
                proof {
                    assert(string_views(out@) =~= string_views(before).push(piece@));
                }
            }
            start = i + 1;
        } else {
            proof {
                let f = fields(s@.take(i as int), sep);
                let g = fields(s@.take(i as int + 1), sep);
                assert(g.drop_last() =~= f.drop_last());
                assert(s@.subrange(start as int, i as int + 1)
                    =~= s@.subrange(start as int, i as int).push(c));
            }
        }
        i = i + 1;
    }
    let piece = s.substring_char(start, n);
    proof {
        assert(s@.take(n as int) =~= s@);
        let f = fields(s@, sep);
        lemma_fields_not_empty(s@, sep);
        assert(f =~= f.drop_last().push(f.last()));
        reveal(Seq::filter);
        assert(f.filter(ne) == if non_empty(f.last()) {
            f.drop_last().filter(ne).push(f.last())
        } else {
            f.drop_last().filter(ne)
        });
    }
    if !drop_empty || n > start {
        let ghost before = out@;
        out.push(String::from_str(piece));
        proof {
            assert(string_views(out@) =~= string_views(before).push(piece@));
        }
    }
    out
}

/// The pieces of `s` between occurrences of `d`.
pub fn split_on(s: &str, d: char) -> (r: Vec<String>)
    ensures
        string_views(r@) == fields(s@, Separator::Char(d)),
{
    cut(s, Separator::Char(d), false)
}

/// The whitespace-separated words of `s`.
pub fn split_words(s: &str) -> (r: Vec<String>)
    ensures
        string_views(r@) == words(s@),
{
    cut(s, Separator::Space, true)
}

/// Whether `a` and `b` hold the same characters.
pub fn same_text(a: &str, b: &str) -> (r: bool)
    ensures
        r == (a@ == b@),
{
    String::from_str(a) == String::from_str(b)
}

/// `s` begins with `p`.
pub open spec fn starts_with(s: Seq<char>, p: Seq<char>) -> bool {
    p.len() <= s.len() && s.take(p.len() as int) == p
}

/// Whether `cs` holds the characters of `p` from position `i` on.
pub fn has_prefix_at(cs: &Vec<char>, i: usize, p: &str) -> (r: bool)
    requires
        i <= cs@.len(),
    ensures
        r == starts_with(cs@.skip(i as int), p@),
{
    let ps = chars_of(p);
    let m = ps.len();
    let n = cs.len();
    if m > n - i {
        return false;
    }
    let mut j: usize = 0;
    while j < m
        invariant
            ps@ == p@,
            m == ps@.len(),
            n == cs@.len(),
            i + m <= n,
            j <= m,
            forall|t: int| 0 <= t < j ==> cs@[i + t] == ps@[t],
        decreases m - j,
    {
        if cs[i + j] != ps[j] {
            assert(cs@.skip(i as int).take(m as int)[j as int] != p@[j as int]);
            return false;
        }
        j = j + 1;
    }
    assert(cs@.skip(i as int).take(m as int) =~= p@);
    true
}

/// A class of characters that a run is made of.
#[derive(Clone, Copy)]
pub enum CharClass {
    /// `0` to `9`.
    Digit,
    /// ASCII letters and digits.
    Alnum,
    /// Anything but `/`.
    NotSlash,
}

impl CharClass {
    pub open spec fn spec_has(self, c: char) -> bool {
        match self {
            CharClass::Digit => is_digit(c),
            CharClass::Alnum => is_digit(c) || (65 <= c as u32 <= 90) || (97 <= c as u32 <= 122),
            CharClass::NotSlash => c != '/',
        }
    }

    pub fn has(&self, c: char) -> (r: bool)
        ensures
            r == self.spec_has(c),
    {
        let u = c as u32;
        match self {
            CharClass::Digit => 48 <= u && u <= 57,
            CharClass::Alnum => (48 <= u && u <= 57) || (65 <= u && u <= 90) || (97 <= u && u <= 122),
            CharClass::NotSlash => c != '/',
        }
    }
}

/// How many characters at the start of `s` belong to `k`.
pub open spec fn run_len(s: Seq<char>, k: CharClass) -> nat
    decreases s.len(),
{
    if s.len() > 0 && k.spec_has(s[0]) {
        1 + run_len(s.drop_first(), k)
    } else {
        0
    }
}

pub proof fn lemma_run_len(s: Seq<char>, k: CharClass, m: int)
    requires
        0 <= m <= s.len(),
        forall|t: int| 0 <= t < m ==> k.spec_has(#[trigger] s[t]),
        m == s.len() || !k.spec_has(s[m]),
    ensures
        run_len(s, k) == m,
    decreases m,
{
    if m > 0 {
        let r = s.drop_first();
        assert forall|t: int| 0 <= t < m - 1 implies k.spec_has(#[trigger] r[t]) by {
            assert(r[t] == s[t + 1]);
        }
        if m < s.len() {
            assert(r[m - 1] == s[m]);
        }
        lemma_run_len(r, k, m - 1);
    }
}

/// Every character of the leading run belongs to the class.
pub proof fn lemma_run_prefix(s: Seq<char>, k: CharClass, j: int)
    requires
        0 <= j < run_len(s, k),
    ensures
        j < s.len(),
        k.spec_has(s[j]),
    decreases j,
{
    assert(s.len() > 0 && k.spec_has(s[0]));
    if j > 0 {
        lemma_run_prefix(s.drop_first(), k, j - 1);
        assert(s.drop_first()[j - 1] == s[j]);
    }
}

/// The end of the run of `k` characters that starts at position `i`.
pub fn run_end(cs: &Vec<char>, i: usize, k: CharClass) -> (r: usize)
    requires
        i <= cs@.len(),
    ensures
        i <= r <= cs@.len(),
        r - i == run_len(cs@.skip(i as int), k),
{
    let mut j: usize = i;
    while j < cs.len() && k.has(cs[j])
        invariant
            i <= j <= cs@.len(),
            forall|t: int| i <= t < j ==> k.spec_has(#[trigger] cs@[t]),
        decreases cs@.len() - j,
    {
        j = j + 1;
    }
    proof {
        let s = cs@.skip(i as int);
        assert forall|t: int| 0 <= t < j - i implies k.spec_has(#[trigger] s[t]) by {
            assert(s[t] == cs@[i + t]);
        }
        if j < cs@.len() {
            assert(s[j - i] == cs@[j as int]);
        }
        lemma_run_len(s, k, j - i);
    }
    j
}

pub open spec fn is_digit(c: char) -> bool {
    48 <= c as u32 <= 57
}

pub open spec fn all_digits(s: Seq<char>) -> bool {
    forall|i: int| 0 <= i < s.len() ==> is_digit(#[trigger] s[i])
}

pub open spec fn digit_value(c: char) -> int {
    c as u32 - 48
}

/// The number that a run of decimal digits spells, most significant first.
pub open spec fn digits_value(s: Seq<char>) -> int
    decreases s.len(),
{
    if s.len() == 0 {
        0
    } else {
        digits_value(s.drop_last()) * 10 + digit_value(s.last())
    }
}

/// The integer that `t` spells in the form that std's integer parsing reads:
/// an optional `+` or `-`, then one or more ASCII digits, nothing else.
pub open spec fn signed_value(t: Seq<char>) -> Option<int> {
    if t.len() > 0 && (t[0] == '+' || t[0] == '-') {
        let d = t.skip(1);
        if d.len() > 0 && all_digits(d) {
            Some(if t[0] == '-' { -digits_value(d) } else { digits_value(d) })
        } else {
            None
        }
    } else if t.len() > 0 && all_digits(t) {
        Some(digits_value(t))
    } else {
        None
    }
}

/// What `str::parse::<i32>` gives for `t`: the value when `t` spells an
/// integer that fits, else nothing.
pub open spec fn i32_of(t: Seq<char>) -> Option<i32> {
    match signed_value(t) {
        Some(v) => if i32::MIN <= v <= i32::MAX {
            Some(v as i32)
        } else {
            None
        },
        None => None,
    }
}

proof fn lemma_digits_value_prefix(s: Seq<char>, k: int)
    requires
        all_digits(s),
        0 <= k <= s.len(),
    ensures
        0 <= digits_value(s.take(k)) <= digits_value(s),
    decreases s.len(),
{
    if s.len() > 0 {
        let p = s.drop_last();
        assert(all_digits(p)) by {
            assert forall|i: int| 0 <= i < p.len() implies is_digit(#[trigger] p[i]) by {
                assert(p[i] == s[i]);
            }
        }
        assert(is_digit(s[s.len() - 1]));
        if k == s.len() {
            assert(s.take(k) =~= s);
            lemma_digits_value_prefix(p, p.len() as int);
            assert(p.take(p.len() as int) =~= p);
        } else {
            lemma_digits_value_prefix(p, k);
            assert(p.take(k) =~= s.take(k));
            lemma_digits_value_prefix(p, p.len() as int);
            assert(p.take(p.len() as int) =~= p);
        }
    }
}

/// Reads `cs[from..to]` as decimal digits; `None` unless every character there
/// is a digit and the value is at most `limit`.
fn read_digits(cs: &Vec<char>, from: usize, to: usize, limit: u64) -> (r: Option<u64>)
    requires
        from <= to <= cs@.len(),
    ensures
        ({
            let d = cs@.subrange(from as int, to as int);
            r == if all_digits(d) && digits_value(d) <= limit {
                Some(digits_value(d) as u64)
            } else {
                None::<u64>
            }
        }),
        all_digits(cs@.subrange(from as int, to as int)) ==> digits_value(
            cs@.subrange(from as int, to as int),
        ) >= 0,
{
    let ghost d = cs@.subrange(from as int, to as int);
    let mut acc: u128 = 0;
    let mut i: usize = from;
    while i < to
        invariant
            from <= i <= to <= cs@.len(),
            d == cs@.subrange(from as int, to as int),
            all_digits(d.take(i - from)),
            acc == digits_value(d.take(i - from)),
            acc <= limit,
        decreases to - i,
    {
        let c = cs[i];
        proof {
            assert(d.take(i - from + 1).drop_last() =~= d.take(i - from));
            assert(d[i - from] == c);
        }
        if !((c as u32) >= 48 && (c as u32) <= 57) {
            proof {
                assert(!is_digit(d[i - from]));
            }
            proof {
                if all_digits(d) {
                    lemma_digits_value_prefix(d, 0);
                }
            }
            return None;
        }
        let v = (c as u32 - 48) as u128;
        acc = acc * 10 + v;
        proof {
            assert(all_digits(d.take(i - from + 1))) by {
                assert forall|j: int| 0 <= j < i - from + 1 implies is_digit(
                    #[trigger] d.take(i - from + 1)[j],
                ) by {
                    if j < i - from {
                        assert(d.take(i - from + 1)[j] == d.take(i - from)[j]);
                    }
                }
            }
        }
        if acc > limit as u128 {
            proof {
                if all_digits(d) {
                    lemma_digits_value_prefix(d, i - from + 1);
                }
            }
            return None;
        }
        i = i + 1;
    }
    proof {
        assert(d.take(i - from) =~= d);
    }
    Some(acc as u64)
}

/// Parses `t` as std's `str::parse::<i32>` does.
pub fn parse_i32(t: &str) -> (r: Option<i32>)
    ensures
        r == i32_of(t@),
{
    let cs = chars_of(t);
    let n = cs.len();
    if n == 0 {
        return None;
    }
    let first = cs[0];
    if first == '+' || first == '-' {
        let limit: u64 = if first == '-' { 2147483648 } else { 2147483647 };
        proof {
            assert(cs@.subrange(1, n as int) =~= t@.skip(1));
        }
        if n == 1 {
            return None;
        }
        match read_digits(&cs, 1, n, limit) {
            Some(v) => {
                if first == '-' {
                    Some((0 - (v as i64)) as i32)
                } else {
                    Some(v as i32)
                }
            },
            None => None,
        }
    } else {
        proof {
            assert(cs@.subrange(0, n as int) =~= t@);
        }
        match read_digits(&cs, 0, n, 2147483647) {
            Some(v) => Some(v as i32),
            None => None,
        }
    }
}

/// Reads `cs[from..to]` as an unsigned decimal number that fits an `i64`.
pub fn read_i64_digits(cs: &Vec<char>, from: usize, to: usize) -> (r: Option<i64>)
    requires
        from <= to <= cs@.len(),
    ensures
        ({
            let d = cs@.subrange(from as int, to as int);
            r == if all_digits(d) && digits_value(d) <= i64::MAX {
                Some(digits_value(d) as i64)
            } else {
                None::<i64>
            }
        }),
{
    match read_digits(cs, from, to, 9223372036854775807) {
        Some(v) => Some(v as i64),
        None => None,
    }
}

/// The character of the decimal digit `d`.
pub open spec fn digit_char(d: int) -> char {
    if d == 0 { '0' }
    else if d == 1 { '1' }
    else if d == 2 { '2' }
    else if d == 3 { '3' }
    else if d == 4 { '4' }
    else if d == 5 { '5' }
    else if d == 6 { '6' }
    else if d == 7 { '7' }
    else if d == 8 { '8' }
    else { '9' }
}

/// The decimal digits of `n`, without leading zeros ("0" for zero).
pub open spec fn digits_of(n: nat) -> Seq<char>
    decreases n,
{
    if n < 10 {
        seq![digit_char(n as int)]
    } else {
        digits_of(n / 10).push(digit_char(n as int % 10))
    }
}

/// How `n` is written in decimal, with a leading `-` when negative.
pub open spec fn decimal(n: int) -> Seq<char> {
    if n < 0 {
        seq!['-'] + digits_of((-n) as nat)
    } else {
        digits_of(n as nat)
    }
}

proof fn lemma_digit_char(d: int)
    requires
        0 <= d < 10,
    ensures
        is_digit(digit_char(d)),
        digit_value(digit_char(d)) == d,
{
}

/// Writing a natural number in decimal and reading it back gives the number.
pub proof fn lemma_digits_round_trip(n: nat)
    ensures
        digits_of(n).len() > 0,
        all_digits(digits_of(n)),
        digits_value(digits_of(n)) == n,
    decreases n,
{
    let d = digits_of(n);
    lemma_digit_char(n as int % 10);
    if n >= 10 {
        let p = digits_of(n / 10);
        lemma_digits_round_trip(n / 10);
        assert(d.drop_last() =~= p);
        assert forall|i: int| 0 <= i < d.len() implies is_digit(#[trigger] d[i]) by {
            if i < d.len() - 1 {
                assert(d[i] == p[i]);
            }
        }
        assert(digits_value(d) == digits_value(p) * 10 + digit_value(d.last()));
        assert((n / 10) * 10 + n % 10 == n);
    } else {
        assert(d.drop_last() =~= Seq::<char>::empty());
        assert(digits_value(d) == digits_value(d.drop_last()) * 10 + digit_value(d.last()));
        assert(digits_value(Seq::<char>::empty()) == 0);
    }
}

fn digit_str(d: u64) -> (r: &'static str)
    requires
        d < 10,
    ensures
        r@ == seq![digit_char(d as int)],
{
    proof {
        reveal_strlit("0");
        reveal_strlit("1");
        reveal_strlit("2");
        reveal_strlit("3");
        reveal_strlit("4");
        reveal_strlit("5");
        reveal_strlit("6");
        reveal_strlit("7");
        reveal_strlit("8");
        reveal_strlit("9");
    }
    let r = if d == 0 { "0" }
    else if d == 1 { "1" }
    else if d == 2 { "2" }
    else if d == 3 { "3" }
    else if d == 4 { "4" }
    else if d == 5 { "5" }
    else if d == 6 { "6" }
    else if d == 7 { "7" }
    else if d == 8 { "8" }
    else { "9" };
    assert(r@ =~= seq![digit_char(d as int)]);
    r
}

fn push_digits(out: &mut String, n: u64)
    ensures
        final(out)@ == old(out)@ + digits_of(n as nat),
    decreases n,
{
    if n >= 10 {
        push_digits(out, n / 10);
    }
    out.append(digit_str(n % 10));
    proof {
        if n >= 10 {
            assert(old(out)@ + digits_of(n as nat) =~= old(out)@ + digits_of((n / 10) as nat) + seq![digit_char(n as int % 10)]);
        } else {
            assert(old(out)@ + digits_of(n as nat) =~= old(out)@ + seq![digit_char(n as int % 10)]);
        }
    }
}

/// Appends the decimal form of `n` to `out`.
pub fn push_decimal(out: &mut String, n: i64)
    ensures
        final(out)@ == old(out)@ + decimal(n as int),
{
    if n < 0 {
        out.append("-");
        proof {
            reveal_strlit("-");
        }
        let m = (0 - (n as i128)) as u64;
        push_digits(out, m);
        proof {
            assert(old(out)@ + decimal(n as int) =~= old(out)@ + "-"@ + digits_of(m as nat));
        }
    } else {
        push_digits(out, n as u64);
    }
}

} // verus!
