//! Character-level string helpers shared by the formatting, layout and record code.
//!
//! Text is modelled as `Seq<char>`, the view of `String` and `str`.

use vstd::prelude::*;

verus! {

broadcast use vstd::string::group_string_axioms;

/// `String::push`: appends one character to the end of the string.
#[verifier::external_body]
pub fn push_char(s: &mut String, c: char)
    ensures
        final(s)@ == old(s)@.push(c),
{
    s.push(c);
}

/// A text result as characters.
pub open spec fn text_result(r: Result<String, String>) -> Result<Seq<char>, Seq<char>> {
    match r {
        Ok(t) => Ok(t@),
        Err(t) => Err(t@),
    }
}

/// A unit result with a text error, as characters.
pub open spec fn unit_result(r: Result<(), String>) -> Result<(), Seq<char>> {
    match r {
        Ok(()) => Ok(()),
        Err(t) => Err(t@),
    }
}

/// The characters of `s`, in order.
pub fn chars_of(s: &str) -> (out: Vec<char>)
    ensures
        out@ == s@,
{
    let mut out: Vec<char> = Vec::new();
    for c in iter: s.chars()
        invariant
            out@ == iter.seq().take(iter.index() as int),
            iter.seq() == s@,
    {
        out.push(c);
    }
    out
}

/// A string holding exactly the given characters.
pub fn string_of(chars: &[char]) -> (out: String)
    ensures
        out@ == chars@,
{
    let mut out = String::new();
    let mut i: usize = 0;
    while i < chars.len()
        invariant
            i <= chars@.len(),
            out@ == chars@.take(i as int),
        decreases chars@.len() - i,
    {
        push_char(&mut out, chars[i]);
        i = i + 1;
        assert(out@ =~= chars@.take(i as int));
    }
    assert(chars@.take(chars@.len() as int) =~= chars@);
    out
}

/// An owned copy of a string slice.
pub fn owned(s: &str) -> (out: String)
    ensures
        out@ == s@,
{
    String::from_str(s)
}

/// `a` followed by `b`, as a new string.
pub fn joined(a: &str, b: &str) -> (out: String)
    ensures
        out@ == a@ + b@,
{
    let mut out = String::from_str(a);
    out.append(b);
    out
}

/// The decimal digit for `d`.
pub open spec fn digit_char(d: nat) -> char {
    if d == 0 {
        '0'
    } else if d == 1 {
        '1'
    } else if d == 2 {
        '2'
    } else if d == 3 {
        '3'
    } else if d == 4 {
        '4'
    } else if d == 5 {
        '5'
    } else if d == 6 {
        '6'
    } else if d == 7 {
        '7'
    } else if d == 8 {
        '8'
    } else {
        '9'
    }
}

/// The shortest decimal numeral of `n`, as `Display` writes unsigned integers.
pub open spec fn decimal(n: nat) -> Seq<char>
    decreases n,
{
    if n < 10 {
        seq![digit_char(n)]
    } else {
        decimal(n / 10).push(digit_char(n % 10))
    }
}

/// The decimal numeral of a signed integer, with a leading `-` when negative.
pub open spec fn signed_decimal(n: int) -> Seq<char> {
    if n < 0 {
        seq!['-'] + decimal((-n) as nat)
    } else {
        decimal(n as nat)
    }
}

fn digit(d: u128) -> (c: char)
    requires
        d < 10,
    ensures
        c == digit_char(d as nat),
{
    if d == 0 {
        '0'
    } else if d == 1 {
        '1'
    } else if d == 2 {
        '2'
    } else if d == 3 {
        '3'
    } else if d == 4 {
        '4'
    } else if d == 5 {
        '5'
    } else if d == 6 {
        '6'
    } else if d == 7 {
        '7'
    } else if d == 8 {
        '8'
    } else {
        '9'
    }
}

/// `n` written in decimal, as `Display` writes an unsigned integer.
pub fn render_decimal(n: u128) -> (out: String)
    ensures
        out@ == decimal(n as nat),
{
    let mut m: u128 = n;
    let mut suffix: Vec<char> = Vec::new();
    while m >= 10
        invariant
            decimal(n as nat) == decimal(m as nat) + suffix@,
        decreases m,
    {
        let d = digit(m % 10);
        suffix.insert(0, d);
        assert(decimal(m as nat) == decimal((m / 10) as nat).push(digit_char((m % 10) as nat)));
        m = m / 10;
        assert(decimal(n as nat) =~= decimal(m as nat) + suffix@);
    }
    suffix.insert(0, digit(m));
    assert(suffix@ =~= decimal(m as nat) + suffix@.drop_first());
    string_of(suffix.as_slice())
}

/// `n` written in decimal, with a leading `-` when it is negative.
pub fn render_signed_decimal(n: i64) -> (out: String)
    ensures
        out@ == signed_decimal(n as int),
{
    if n < 0 {
        let magnitude: u128 = if n == i64::MIN {
            9223372036854775808u128
        } else {
            (-n) as u128
        };
        assert(magnitude as int == -(n as int));
        let digits = render_decimal(magnitude);
        let mut out = String::new();
        push_char(&mut out, '-');
        out.append(digits.as_str());
        assert(out@ =~= seq!['-'] + decimal(magnitude as nat));
        out
    } else {
        render_decimal(n as u128)
    }
}

/// Unicode's `White_Space` property, the whitespace of `char::is_whitespace` and `str::trim`.
pub open spec fn is_white_space(c: char) -> bool {
    ||| '\u{0009}' <= c <= '\u{000d}'
    ||| c == ' '
    ||| c == '\u{0085}'
    ||| c == '\u{00a0}'
    ||| c == '\u{1680}'
    ||| '\u{2000}' <= c <= '\u{200a}'
    ||| c == '\u{2028}'
    ||| c == '\u{2029}'
    ||| c == '\u{202f}'
    ||| c == '\u{205f}'
    ||| c == '\u{3000}'
}

/// Whether `c` has Unicode's `White_Space` property.
pub fn is_whitespace(c: char) -> (b: bool)
    ensures
        b == is_white_space(c),
{
    ('\u{0009}' <= c && c <= '\u{000d}') || c == ' ' || c == '\u{0085}' || c == '\u{00a0}'
        || c == '\u{1680}' || ('\u{2000}' <= c && c <= '\u{200a}') || c == '\u{2028}' || c
        == '\u{2029}' || c == '\u{202f}' || c == '\u{205f}' || c == '\u{3000}'
}

/// `s` without the leading characters that satisfy `strip`.
pub open spec fn strip_start(s: Seq<char>, strip: spec_fn(char) -> bool) -> Seq<char>
    decreases s.len(),
{
    if s.len() > 0 && strip(s[0]) {
        strip_start(s.drop_first(), strip)
    } else {
        s
    }
}

/// `s` without the trailing characters that satisfy `strip`.
pub open spec fn strip_end(s: Seq<char>, strip: spec_fn(char) -> bool) -> Seq<char>
    decreases s.len(),
{
    if s.len() > 0 && strip(s.last()) {
        strip_end(s.drop_last(), strip)
    } else {
        s
    }
}

/// `str::trim`: the text without leading and trailing `White_Space`.
pub open spec fn trimmed(s: Seq<char>) -> Seq<char> {
    strip_end(strip_start(s, |c: char| is_white_space(c)), |c: char| is_white_space(c))
}

/// ECMAScript's `String.prototype.trim`: `White_Space` and the byte-order mark are removed.
pub open spec fn js_blank_char(c: char) -> bool {
    is_white_space(c) || c == '\u{feff}'
}

/// The text without leading and trailing `White_Space` and byte-order marks.
pub open spec fn js_trimmed(s: Seq<char>) -> Seq<char> {
    strip_end(strip_start(s, |c: char| js_blank_char(c)), |c: char| js_blank_char(c))
}

proof fn lemma_strip_start_skip(s: Seq<char>, strip: spec_fn(char) -> bool, i: int)
    requires
        0 <= i <= s.len(),
        forall|j: int| 0 <= j < i ==> strip(#[trigger] s[j]),
    ensures
        strip_start(s, strip) == strip_start(s.skip(i), strip),
    decreases i,
{
    if i > 0 {
        assert(s.skip(1) =~= s.drop_first());
        lemma_strip_start_skip(s.drop_first(), strip, i - 1);
        assert(s.drop_first().skip(i - 1) =~= s.skip(i));
    } else {
        assert(s.skip(0) =~= s);
    }
}

proof fn lemma_strip_end_take(s: Seq<char>, strip: spec_fn(char) -> bool, k: int)
    requires
        0 <= k <= s.len(),
        forall|j: int| k <= j < s.len() ==> strip(#[trigger] s[j]),
    ensures
        strip_end(s, strip) == strip_end(s.take(k), strip),
    decreases s.len() - k,
{
    if k < s.len() {
        assert(s.take(s.len() - 1) =~= s.drop_last());
        lemma_strip_end_take(s.drop_last(), strip, k);
        assert(s.drop_last().take(k) =~= s.take(k));
    } else {
        assert(s.take(k) =~= s);
    }
}

/// The characters of `s` without its leading and trailing whitespace, and with `js` also without
/// byte-order marks there.
fn strip_both(s: &[char], js: bool) -> (out: Vec<char>)
    ensures
        out@ == (if js {
            js_trimmed(s@)
        } else {
            trimmed(s@)
        }),
{
    let ghost strip: spec_fn(char) -> bool = if js {
        |c: char| js_blank_char(c)
    } else {
        |c: char| is_white_space(c)
    };
    let mut start: usize = 0;
    while start < s.len() && (is_whitespace(s[start]) || (js && s[start] == '\u{feff}'))
        invariant
            start <= s@.len(),
            forall|j: int| 0 <= j < start ==> strip(#[trigger] s@[j]),
            strip == (if js {
                |c: char| js_blank_char(c)
            } else {
                |c: char| is_white_space(c)
            }),
        decreases s@.len() - start,
    {
        start = start + 1;
    }
    proof {
        lemma_strip_start_skip(s@, strip, start as int);
        if start < s@.len() {
            assert(!strip(s@.skip(start as int)[0]));
        }
    }
    let ghost rest = s@.skip(start as int);
    assert(strip_start(rest, strip) == rest);
    let mut end: usize = s.len();
    while end > start && (is_whitespace(s[end - 1]) || (js && s[end - 1] == '\u{feff}'))
        invariant
            start <= end <= s@.len(),
            rest == s@.skip(start as int),
            forall|j: int| end <= j < s@.len() ==> strip(#[trigger] s@[j]),
            strip == (if js {
                |c: char| js_blank_char(c)
            } else {
                |c: char| is_white_space(c)
            }),
        decreases end,
    {
        end = end - 1;
    }
    proof {
        assert forall|j: int| (end - start) <= j < rest.len() implies strip(#[trigger] rest[j]) by {
            assert(rest[j] == s@[j + start]);
        }
        lemma_strip_end_take(rest, strip, (end - start) as int);
        assert(rest.take((end - start) as int) =~= s@.subrange(start as int, end as int));
        if end > start {
            assert(s@.subrange(start as int, end as int).last() == s@[end - 1]);
        }
    }
    let mut out: Vec<char> = Vec::new();
    let mut i: usize = start;
    while i < end
        invariant
            start <= i <= end <= s@.len(),
            out@ == s@.subrange(start as int, i as int),
        decreases end - i,
    {
        out.push(s[i]);
        i = i + 1;
        assert(out@ =~= s@.subrange(start as int, i as int));
    }
    out
}

/// `str::trim`: the text without leading and trailing whitespace.
pub fn trim(s: &str) -> (out: String)
    ensures
        out@ == trimmed(s@),
{
    let chars = chars_of(s);
    let kept = strip_both(chars.as_slice(), false);
    string_of(kept.as_slice())
}

/// Match ECMAScript `String.prototype.trim`, which also removes the byte-order mark.
pub fn javascript_trim(s: &str) -> (out: String)
    ensures
        out@ == js_trimmed(s@),
{
    let chars = chars_of(s);
    let kept = strip_both(chars.as_slice(), true);
    string_of(kept.as_slice())
}

/// Whether `s` is empty once trimmed the ECMAScript way.
pub fn is_javascript_blank(s: &str) -> (b: bool)
    ensures
        b == (js_trimmed(s@).len() == 0),
{
    javascript_trim(s).as_str().unicode_len() == 0
}

/// The parts, in order, with `sep` between each two of them.
pub open spec fn join_with(parts: Seq<Seq<char>>, sep: Seq<char>) -> Seq<char>
    decreases parts.len(),
{
    if parts.len() == 0 {
        seq![]
    } else if parts.len() == 1 {
        parts[0]
    } else {
        join_with(parts.drop_last(), sep) + sep + parts.last()
    }
}

/// Join the strings with `sep` between each two of them.
pub fn join_strings(parts: &Vec<String>, sep: &str) -> (out: String)
    ensures
        out@ == join_with(parts@.map_values(|p: String| p@), sep@),
{
    let ghost views = parts@.map_values(|p: String| p@);
    let mut out = String::new();
    let mut i: usize = 0;
    while i < parts.len()
        invariant
            i <= parts@.len(),
            views == parts@.map_values(|p: String| p@),
            out@ == join_with(views.take(i as int), sep@),
        decreases parts@.len() - i,
    {
        proof {
            assert(views.take(i + 1).drop_last() =~= views.take(i as int));
            assert(views.take(i + 1).last() == parts@[i as int]@);
        }
        if i > 0 {
            out.append(sep);
        }
        out.append(parts[i].as_str());
        i = i + 1;
        proof {
            if i == 1 {
                assert(views.take(1)[0] == parts@[0]@);
                assert(out@ =~= views.take(1)[0]);
            }
        }
    }
    assert(views.take(parts@.len() as int) =~= views);
    out
}

} // verus!
