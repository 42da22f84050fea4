//! Text handling on sequences of characters: splitting command output into
//! lines and fields, reading and writing decimal numbers, and the small
//! pieces of text that a transfer shows and sends.

use vstd::prelude::*;
use vstd::std_specs::iter::IteratorSpec;

verus! {

/// `String::push` appends one character at the end of the string, as its
/// documentation says; nothing else is claimed of it.
pub assume_specification[ String::push ](s: &mut String, ch: char)
    ensures
        final(s)@ == old(s)@.push(ch),
;

/// The characters of `s`, in order.
pub fn chars_of(s: &str) -> (v: Vec<char>)
    ensures
        v@ == s@,
{
    let mut v: Vec<char> = Vec::new();
    for c in it: s.chars()
        invariant
            it.seq() == s@,
            v@ == s@.take(it.index() as int),
    {
        v.push(c);
    }
    v
}

/// Appends the characters of `s` to `out`.
pub fn append_str(out: &mut Vec<char>, s: &str)
    ensures
        final(out)@ == old(out)@ + s@,
{
    let mut v = chars_of(s);
    out.append(&mut v);
}

/// A string holding the first `n` characters of `v`, in order.
pub fn string_from_prefix(v: &[char], n: usize) -> (s: String)
    requires
        n <= v@.len(),
    ensures
        s@ == v@.take(n as int),
{
    let mut s = String::new();
    let mut i: usize = 0;
    while i < n
        invariant
            i <= n,
            n <= v@.len(),
            s@ == v@.take(i as int),
        decreases n - i,
    {
        s.push(v[i]);
        i += 1;
        assert(v@.take(i as int) == v@.take(i - 1).push(v@[i - 1]));
    }
    s
}

/// A string holding the characters of `v`, in order.
pub fn string_from(v: &[char]) -> (s: String)
    ensures
        s@ == v@,
{
    let s = string_from_prefix(v, v.len());
    assert(v@.take(v@.len() as int) == v@);
    s
}

/// The text of an optional string.
pub open spec fn opt_view(o: Option<String>) -> Option<Seq<char>> {
    match o {
        Some(s) => Some(s@),
        None => None,
    }
}

/// The views of a vector of strings.
pub open spec fn views(v: Seq<String>) -> Seq<Seq<char>> {
    v.map_values(|x: String| x@)
}

/// A line as `str::lines` hands it out: without the carriage return that
/// stood before its line feed.
pub open spec fn without_cr(line: Seq<char>) -> Seq<char> {
    if line.len() > 0 && line.last() == '\r' {
        line.drop_last()
    } else {
        line
    }
}

/// `str::lines` read one character at a time: the lines already ended by a
/// line feed, and the characters of the line that is still open.
pub open spec fn line_scan(s: Seq<char>) -> (Seq<Seq<char>>, Seq<char>)
    decreases s.len(),
{
    if s.len() == 0 {
        (seq![], seq![])
    } else {
        let (done, open) = line_scan(s.drop_last());
        if s.last() == '\n' {
            (done.push(without_cr(open)), seq![])
        } else {
            (done, open.push(s.last()))
        }
    }
}

/// The lines of `s` as `str::lines` gives them: split at each line feed,
/// a carriage return before the line feed dropped, and no empty line after
/// a final line feed.
pub open spec fn lines_of(s: Seq<char>) -> Seq<Seq<char>> {
    let (done, open) = line_scan(s);
    if open.len() == 0 {
        done
    } else {
        done.push(open)
    }
}

/// The lines of `text`, as `str::lines` splits them.
pub fn split_lines(text: &str) -> (lines: Vec<String>)
    ensures
        views(lines@) == lines_of(text@),
{
    let v = chars_of(text);
    let mut done: Vec<String> = Vec::new();
    let mut open: Vec<char> = Vec::new();
    let mut i: usize = 0;
    while i < v.len()
        invariant
            i <= v@.len(),
            (views(done@), open@) == line_scan(v@.take(i as int)),
        decreases v.len() - i,
    {
        let c = v[i];
        assert(v@.take(i + 1).drop_last() == v@.take(i as int));
        if c == '\n' {
            let n = open.len();
            let line = if n > 0 && open[n - 1] == '\r' {
                string_from_prefix(&open, n - 1)
            } else {
                string_from_prefix(&open, n)
            };
            assert(open@.take(n as int) == open@);
            assert(open@.take(n - 1) == open@.drop_last());
            done.push(line);
            open = Vec::new();
            assert(views(done@) == line_scan(v@.take(i + 1)).0);
        } else {
            open.push(c);
            assert(views(done@) == line_scan(v@.take(i + 1)).0);
        }
        i += 1;
    }
    assert(v@.take(v@.len() as int) == v@);
    if open.len() > 0 {
        done.push(string_from(&open));
        assert(views(done@) == lines_of(text@));
    }
    done
}

/// Whether `c` has the Unicode White_Space property, the set that
/// `char::is_whitespace` tests for.
pub open spec fn is_white(c: char) -> bool {
    ||| '\u{9}' <= c <= '\u{d}'
    ||| c == ' '
    ||| c == '\u{85}'
    ||| c == '\u{a0}'
    ||| c == '\u{1680}'
    ||| '\u{2000}' <= c <= '\u{200a}'
    ||| c == '\u{2028}'
    ||| c == '\u{2029}'
    ||| c == '\u{202f}'
    ||| c == '\u{205f}'
    ||| c == '\u{3000}'
}

/// Whether `c` is white space in Unicode's sense.
pub fn is_whitespace(c: char) -> (w: bool)
    ensures
        w == is_white(c),
{
    ('\u{9}' <= c && c <= '\u{d}') || c == ' ' || c == '\u{85}' || c == '\u{a0}' || c
        == '\u{1680}' || ('\u{2000}' <= c && c <= '\u{200a}') || c == '\u{2028}' || c
        == '\u{2029}' || c == '\u{202f}' || c == '\u{205f}' || c == '\u{3000}'
}

/// `str::split_whitespace` read one character at a time: the fields already
/// ended by white space, and the characters of the field still open.
pub open spec fn field_scan(s: Seq<char>) -> (Seq<Seq<char>>, Seq<char>)
    decreases s.len(),
{
    if s.len() == 0 {
        (seq![], seq![])
    } else {
        let (done, open) = field_scan(s.drop_last());
        if is_white(s.last()) {
            if open.len() > 0 {
                (done.push(open), seq![])
            } else {
                (done, seq![])
            }
        } else {
            (done, open.push(s.last()))
        }
    }
}

/// The fields of `s` as `str::split_whitespace` gives them: the maximal
/// runs of characters that are not white space, in order.
pub open spec fn fields_of(s: Seq<char>) -> Seq<Seq<char>> {
    let (done, open) = field_scan(s);
    if open.len() == 0 {
        done
    } else {
        done.push(open)
    }
}

/// The fields of `text` that white space separates, as
/// `str::split_whitespace` splits them.
pub fn split_fields(text: &str) -> (fields: Vec<String>)
    ensures
        views(fields@) == fields_of(text@),
{
    let v = chars_of(text);
    let mut done: Vec<String> = Vec::new();
    let mut open: Vec<char> = Vec::new();
    let mut i: usize = 0;
    while i < v.len()
        invariant
            i <= v@.len(),
            (views(done@), open@) == field_scan(v@.take(i as int)),
        decreases v.len() - i,
    {
        let c = v[i];
        assert(v@.take(i + 1).drop_last() == v@.take(i as int));
        if is_whitespace(c) {
            if open.len() > 0 {
                done.push(string_from(&open));
                open = Vec::new();
            }
            assert(views(done@) == field_scan(v@.take(i + 1)).0);
        } else {
            open.push(c);
            assert(views(done@) == field_scan(v@.take(i + 1)).0);
        }
        i += 1;
    }
    assert(v@.take(v@.len() as int) == v@);
    if open.len() > 0 {
        done.push(string_from(&open));
        assert(views(done@) == fields_of(text@));
    }
    done
}

/// How many line feeds `s` holds.
pub open spec fn newline_count(s: Seq<char>) -> nat
    decreases s.len(),
{
    if s.len() == 0 {
        0
    } else {
        newline_count(s.drop_last()) + if s.last() == '\n' {
            1nat
        } else {
            0nat
        }
    }
}

/// How many line feeds `text` holds: the number of entries in the output
/// of a listing that ends each entry with one.
pub fn count_newlines(text: &str) -> (n: u64)
    ensures
        n == newline_count(text@),
{
    let v = chars_of(text);
    let mut n: u64 = 0;
    let mut i: usize = 0;
    while i < v.len()
        invariant
            i <= v@.len(),
            n == newline_count(v@.take(i as int)),
            n <= i,
        decreases v.len() - i,
    {
        assert(v@.take(i + 1).drop_last() == v@.take(i as int));
        if v[i] == '\n' {
            n += 1;
        }
        i += 1;
    }
    assert(v@.take(v@.len() as int) == v@);
    n
}

/// Whether a slash followed by a dot stands somewhere in `s`: some
/// component of the path `s`, past the first, begins with a dot.
pub open spec fn has_dot_component(s: Seq<char>) -> bool {
    exists|i: int| #[trigger] slash_dot_at(s, i)
}

/// Whether a slash stands at index `i` of `s` and a dot right after it.
pub open spec fn slash_dot_at(s: Seq<char>, i: int) -> bool {
    0 <= i && i + 1 < s.len() && s[i] == '/' && s[i + 1] == '.'
}

/// A path runs through a hidden entry exactly when a slash is followed by a
/// dot somewhere in it: text with "/." inside always does, and text
/// without a dot, or without a slash, never does.
pub proof fn lemma_dot_component_rule(a: Seq<char>, b: Seq<char>, s: Seq<char>)
    ensures
        has_dot_component(a + seq!['/', '.'] + b),
        (forall|i: int| 0 <= i < s.len() ==> s[i] != '.') ==> !has_dot_component(s),
        (forall|i: int| 0 <= i < s.len() ==> s[i] != '/') ==> !has_dot_component(s),
{
    let t = a + seq!['/', '.'] + b;
    assert(t[a.len() as int] == '/' && t[a.len() as int + 1] == '.');
    assert(slash_dot_at(t, a.len() as int));
}

/// Whether `path` holds "/." anywhere, that is, whether the path runs
/// through a hidden file or directory.
pub fn contains_dot_component(path: &str) -> (hidden: bool)
    ensures
        hidden == has_dot_component(path@),
{
    let v = chars_of(path);
    let mut i: usize = 0;
    while i < v.len()
        invariant
            v@ == path@,
            i <= v@.len(),
            forall|j: int| 0 <= j < i ==> !#[trigger] slash_dot_at(v@, j),
        decreases v.len() - i,
    {
        if i + 1 < v.len() && v[i] == '/' && v[i + 1] == '.' {
            assert(slash_dot_at(v@, i as int));
            return true;
        }
        i += 1;
    }
    assert forall|j: int| !#[trigger] slash_dot_at(v@, j) by {
        if 0 <= j < i {
        }
    }
    false
}

/// The decimal digit character for `d`, taken below ten.
pub open spec fn digit_char(d: int) -> char {
    ('0' as int + d) as char
}

/// Whether `c` is one of the ASCII digits '0' to '9'.
pub open spec fn is_digit(c: char) -> bool {
    '0' <= c <= '9'
}

/// The decimal form of `n`, without sign or leading zeros.
pub open spec fn decimal(n: nat) -> Seq<char>
    decreases n,
{
    if n < 10 {
        seq![digit_char(n as int)]
    } else {
        decimal(n / 10).push(digit_char((n % 10) as int))
    }
}

/// Appends the decimal form of `n` to `out`.
pub fn push_decimal(out: &mut Vec<char>, n: u64)
    ensures
        final(out)@ == old(out)@ + decimal(n as nat),
    decreases n,
{
    if n >= 10 {
        push_decimal(out, n / 10);
    }
    let d = (n % 10) as u8;
    out.push((48u8 + d) as char);
    assert(((48u8 + d) as char) == digit_char((n % 10) as int));
}

/// The value of a run of decimal digits, most significant first.
pub open spec fn digits_value(d: Seq<char>) -> int
    decreases d.len(),
{
    if d.len() == 0 {
        0
    } else {
        digits_value(d.drop_last()) * 10 + (d.last() as int - '0' as int)
    }
}

/// Whether every character of `d` is a decimal digit.
pub open spec fn all_digits(d: Seq<char>) -> bool {
    forall|i: int| 0 <= i < d.len() ==> is_digit(#[trigger] d[i])
}

/// The value that `i64::from_str` reads from `s`: an optional '+' or '-',
/// then one or more decimal digits, and a value that fits in an `i64`;
/// `None` for anything else.
pub open spec fn parsed_i64(s: Seq<char>) -> Option<int> {
    let negative = s.len() > 0 && s[0] == '-';
    let body = if s.len() > 0 && (s[0] == '-' || s[0] == '+') {
        s.drop_first()
    } else {
        s
    };
    let value = if negative {
        -digits_value(body)
    } else {
        digits_value(body)
    };
    if body.len() == 0 || !all_digits(body) || value < i64::MIN || value > i64::MAX {
        None
    } else {
        Some(value)
    }
}

/// The `i64` that `text` spells in decimal, as `str::parse::<i64>` reads
/// it, or `None` where that parse fails.
pub fn parse_i64(text: &str) -> (r: Option<i64>)
    ensures
        r matches Some(x) ==> parsed_i64(text@) == Some(x as int),
        r is None ==> parsed_i64(text@) is None,
{
    let v = chars_of(text);
    let negative = v.len() > 0 && v[0] == '-';
    let start: usize = if v.len() > 0 && (v[0] == '-' || v[0] == '+') {
        1
    } else {
        0
    };
    let ghost body = v@.subrange(start as int, v@.len() as int);
    assert(body == if v@.len() > 0 && (v@[0] == '-' || v@[0] == '+') {
        v@.drop_first()
    } else {
        v@
    });
    if start == v.len() {
        return None;
    }
    // Past 2^63 no i64 is spelled, whatever follows: the magnitude is held
    // there once it passes.
    let limit: u128 = 0x8000_0000_0000_0000;
    let mut acc: u128 = 0;
    let mut over = false;
    let mut i: usize = start;
    while i < v.len()
        invariant
            v@ == text@,
            body == if text@.len() > 0 && (text@[0] == '-' || text@[0] == '+') {
                text@.drop_first()
            } else {
                text@
            },
            negative == (text@.len() > 0 && text@[0] == '-'),
            start <= i <= v@.len(),
            body == v@.subrange(start as int, v@.len() as int),
            limit == 0x8000_0000_0000_0000,
            all_digits(v@.subrange(start as int, i as int)),
            over ==> digits_value(v@.subrange(start as int, i as int)) > limit,
            !over ==> acc == digits_value(v@.subrange(start as int, i as int)),
            acc <= limit,
        decreases v.len() - i,
    {
        let c = v[i];
        let ghost prev = v@.subrange(start as int, i as int);
        let ghost next = v@.subrange(start as int, i + 1);
        assert(next.drop_last() == prev);
        assert(next.last() == c);
        if !('0' <= c && c <= '9') {
            assert(body[i - start] == c);
            assert(!is_digit(body[i - start]));
            return None;
        }
        let d = (c as u32 - '0' as u32) as u128;
        assert(d == c as int - '0' as int);
        if !over {
            let grown = acc * 10 + d;
            if grown > limit {
                over = true;
            } else {
                acc = grown;
            }
        }
        assert forall|j: int| 0 <= j < next.len() implies is_digit(#[trigger] next[j]) by {
            if j < prev.len() {
                assert(next[j] == prev[j]);
            }
        }
        i += 1;
    }
    assert(v@.subrange(start as int, v@.len() as int) == body);
    if over {
        None
    } else if negative {
        Some((0 - (acc as i128)) as i64)
    } else if acc <= 0x7fff_ffff_ffff_ffff {
        Some(acc as i64)
    } else {
        None
    }
}

/// Reading back the decimal form of a non-negative `i64` gives that number:
/// `parse_i64` undoes the writing of `push_decimal`.
pub proof fn lemma_decimal_round_trip(n: nat)
    requires
        n <= i64::MAX,
    ensures
        parsed_i64(decimal(n)) == Some(n as int),
{
    lemma_decimal_digits(n);
    let d = decimal(n);
    assert(is_digit(d[0]));
}

/// The digit character for `d` is a digit whose value is `d`.
pub proof fn lemma_digit_char(d: int)
    requires
        0 <= d < 10,
    ensures
        is_digit(digit_char(d)),
        digit_char(d) as int == '0' as int + d,
{
}

/// The decimal form of `n` is all digits and reads as `n`.
pub proof fn lemma_decimal_digits(n: nat)
    ensures
        decimal(n).len() > 0,
        all_digits(decimal(n)),
        digits_value(decimal(n)) == n,
    decreases n,
{
    lemma_digit_char((n % 10) as int);
    if n < 10 {
        assert(decimal(n).drop_last() =~= Seq::<char>::empty());
        assert(digits_value(decimal(n).drop_last()) == 0);
    } else {
        lemma_decimal_digits(n / 10);
        lemma_digit_char((n % 10) as int);
        let d = decimal(n);
        assert(d.drop_last() == decimal(n / 10));
        assert(digits_value(d) == digits_value(decimal(n / 10)) * 10 + (n % 10));
        assert forall|i: int| 0 <= i < d.len() implies is_digit(#[trigger] d[i]) by {
            if i < d.len() - 1 {
                assert(d[i] == decimal(n / 10)[i]);
            }
        }
    }
}

} // verus!
