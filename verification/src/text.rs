use vstd::prelude::*;
use unicode_width::UnicodeWidthStr;

verus! {

// ---------------------------------------------------------------------------
// Facts taken from std and from unicode-width
// ---------------------------------------------------------------------------

/// Whether a character has the Unicode `White_Space` property (listed in
/// the Unicode Character Database, `PropList.txt`), the property that
/// `char::is_whitespace` tests.
pub open spec fn unicode_white_space(c: char) -> bool {
    ||| ('\u{9}' <= c && c <= '\u{D}')
    ||| c == ' '
    ||| c == '\u{85}'
    ||| c == '\u{A0}'
    ||| c == '\u{1680}'
    ||| ('\u{2000}' <= c && c <= '\u{200A}')
    ||| c == '\u{2028}'
    ||| c == '\u{2029}'
    ||| c == '\u{202F}'
    ||| c == '\u{205F}'
    ||| c == '\u{3000}'
}

/// Whether `c` is whitespace, as `char::is_whitespace` decides it.
pub fn is_whitespace(c: char) -> (r: bool)
    ensures
        r == unicode_white_space(c),
{
    ('\u{9}' <= c && c <= '\u{D}') || c == ' ' || c == '\u{85}' || c == '\u{A0}' || c == '\u{1680}'
        || ('\u{2000}' <= c && c <= '\u{200A}') || c == '\u{2028}' || c == '\u{2029}' || c
        == '\u{202F}' || c == '\u{205F}' || c == '\u{3000}'
}

/// Whether every character of `s` is printable ASCII (`' '` to `'~'`).
pub open spec fn printable_ascii(s: Seq<char>) -> bool {
    forall|i: int| 0 <= i < s.len() ==> ' ' <= #[trigger] s[i] && s[i] <= '~'
}

/// The lowercase mapping of a string, as `str::to_lowercase` computes it.
pub uninterp spec fn unicode_lowercase(s: Seq<char>) -> Seq<char>;

/// Calls `str::to_lowercase`; the contract names its result, which depends
/// on the Unicode case tables and is not written out here.
#[verifier::external_body]
pub(crate) fn lowercase(s: &str) -> (r: String)
    ensures
        r@ == unicode_lowercase(s@),
{
    s.to_lowercase()
}

/// Whether a character is ASCII.
pub open spec fn is_ascii_char(c: char) -> bool {
    (c as int) < 128
}

/// The ASCII lowercase of a character: `A` to `Z` become `a` to `z`.
pub open spec fn ascii_lower(c: char) -> char {
    if 'A' <= c && c <= 'Z' {
        ((c as int) + 32) as char
    } else {
        c
    }
}

/// The lowercase of a string: letter by letter for ASCII text, else as
/// `str::to_lowercase` computes it.
pub open spec fn lowercase_spec(s: Seq<char>) -> Seq<char> {
    if forall|i: int| 0 <= i < s.len() ==> is_ascii_char(#[trigger] s[i]) {
        s.map_values(|c: char| ascii_lower(c))
    } else {
        unicode_lowercase(s)
    }
}

fn ascii_lower_char(c: char) -> (r: char)
    requires
        is_ascii_char(c),
    ensures
        r == ascii_lower(c),
{
    if 'A' <= c && c <= 'Z' {
        ((c as u8) + 32) as char
    } else {
        c
    }
}

/// The lowercase of the given characters: ASCII text letter by letter,
/// other text through `str::to_lowercase`.
pub fn lowercase_chars(v: &[char]) -> (r: String)
    ensures
        r@ == lowercase_spec(v@),
{
    let mut ascii = true;
    for i in 0..v.len()
        invariant
            ascii == (forall|j: int| 0 <= j < i ==> is_ascii_char(#[trigger] v@[j])),
    {
        if !(v[i] < '\u{80}') {
            ascii = false;
        }
    }
    if !ascii {
        let s = string_from_chars(v);
        return lowercase(s.as_str());
    }
    let mut r = String::new();
    for i in 0..v.len()
        invariant
            forall|j: int| 0 <= j < v@.len() ==> is_ascii_char(#[trigger] v@[j]),
            r@ == v@.take(i as int).map_values(|c: char| ascii_lower(c)),
    {
        let l = ascii_lower_char(v[i]);
        push_char(&mut r, l);
        assert(v@.take(i + 1).map_values(|c: char| ascii_lower(c)) =~= v@.take(i as int).map_values(
            |c: char| ascii_lower(c),
        ).push(l));
    }
    assert(v@.take(v.len() as int) =~= v@);
    r
}

/// Calls `String::push`: the character is appended at the end.
#[verifier::external_body]
pub(crate) fn push_char(s: &mut String, c: char)
    ensures
        final(s)@ == old(s)@.push(c),
{
    s.push(c)
}

/// The display width in terminal columns of a string, as
/// `unicode_width::UnicodeWidthStr::width` computes it.
pub uninterp spec fn display_width(s: Seq<char>) -> usize;

/// Calls `unicode_width::UnicodeWidthStr::width`; the contract names its
/// result, which rests on the Unicode East Asian Width tables of that crate.
/// It also states what that crate's code shows: the width is a sum taken
/// from the last character backwards, and a printable ASCII character
/// (`' '` to `'~'`) read in the default state adds one column and leaves the
/// default state. So each trailing space adds one column, and printable
/// ASCII text is as wide as it is long.
#[verifier::external_body]
pub(crate) fn str_display_width(s: &str) -> (w: usize)
    ensures
        w == display_width(s@),
        printable_ascii(s@) ==> w == s@.len(),
        forall|n: nat|
            w + n <= usize::MAX ==> #[trigger] display_width(s@ + spaces(n)) == w + n,
{
    UnicodeWidthStr::width(s)
}

// ---------------------------------------------------------------------------
// Characters and strings
// ---------------------------------------------------------------------------

/// The characters of a string, in order.
pub fn chars_of(s: &str) -> (v: Vec<char>)
    ensures
        v@ == s@,
{
    let mut v: Vec<char> = Vec::new();
    for c in it: s.chars()
        invariant
            v@ == it.seq().take(it.index() as int),
    {
        v.push(c);
    }
    v
}

/// A string made of the given characters.
pub fn string_from_chars(v: &[char]) -> (s: String)
    ensures
        s@ == v@,
{
    let mut s = String::new();
    for i in 0..v.len()
        invariant
            s@ == v@.take(i as int),
    {
        push_char(&mut s, v[i]);
        assert(v@.take(i + 1) =~= v@.take(i as int).push(v@[i as int]));
    }
    assert(v@.take(v.len() as int) =~= v@);
    s
}

/// Whether two strings hold the same characters.
pub fn str_eq(a: &str, b: &str) -> (r: bool)
    ensures
        r == (a@ == b@),
{
    let x = chars_of(a);
    let y = chars_of(b);
    if x.len() != y.len() {
        return false;
    }
    for i in 0..x.len()
        invariant
            x@ == a@,
            y@ == b@,
            x.len() == y.len(),
            forall|j: int| 0 <= j < i ==> x@[j] == y@[j],
    {
        if x[i] != y[i] {
            return false;
        }
    }
    assert(a@ =~= b@);
    true
}


// ---------------------------------------------------------------------------
// Trimming
// ---------------------------------------------------------------------------

/// The characters that a trim removes: whitespace when `ws`, else `"`.
pub open spec fn trimmed_char(c: char, ws: bool) -> bool {
    if ws {
        unicode_white_space(c)
    } else {
        c == '"'
    }
}

/// `s` without the trimmed characters at its start.
pub open spec fn skip_leading(s: Seq<char>, ws: bool) -> Seq<char>
    decreases s.len(),
{
    if s.len() > 0 && trimmed_char(s[0], ws) {
        skip_leading(s.drop_first(), ws)
    } else {
        s
    }
}

/// `s` without the trimmed characters at its end.
pub open spec fn skip_trailing(s: Seq<char>, ws: bool) -> Seq<char>
    decreases s.len(),
{
    if s.len() > 0 && trimmed_char(s.last(), ws) {
        skip_trailing(s.drop_last(), ws)
    } else {
        s
    }
}

/// `s` without whitespace at either end, as `str::trim` gives it.
pub open spec fn trim_whitespace(s: Seq<char>) -> Seq<char> {
    skip_trailing(skip_leading(s, true), true)
}

/// `s` without `"` at either end, as `str::trim_matches('"')` gives it.
pub open spec fn trim_quotes(s: Seq<char>) -> Seq<char> {
    skip_trailing(skip_leading(s, false), false)
}

fn is_trimmed_char(c: char, ws: bool) -> (r: bool)
    ensures
        r == trimmed_char(c, ws),
{
    if ws {
        is_whitespace(c)
    } else {
        c == '"'
    }
}

/// Removes the whitespace (when `ws`) or the quotes at both ends of `v`.
pub fn trim_chars(v: &[char], ws: bool) -> (r: Vec<char>)
    ensures
        r@ == skip_trailing(skip_leading(v@, ws), ws),
{
    let n = v.len();
    let mut start: usize = 0;
    assert(v@.skip(0) =~= v@);
    while start < n && is_trimmed_char(v[start], ws)
        invariant
            start <= n,
            n == v@.len(),
            skip_leading(v@, ws) == skip_leading(v@.skip(start as int), ws),
        decreases n - start,
    {
        assert(v@.skip(start as int).drop_first() =~= v@.skip(start + 1));
        start = start + 1;
    }
    assert(skip_leading(v@, ws) == v@.skip(start as int));
    let mut end: usize = n;
    while end > start && is_trimmed_char(v[end - 1], ws)
        invariant
            start <= end <= n,
            n == v@.len(),
            skip_leading(v@, ws) == v@.skip(start as int),
            skip_trailing(v@.skip(start as int), ws) == skip_trailing(
                v@.subrange(start as int, end as int),
                ws,
            ),
        decreases end,
    {
        assert(v@.subrange(start as int, end as int).drop_last() =~= v@.subrange(
            start as int,
            end - 1,
        ));
        end = end - 1;
    }
    assert(v@.skip(start as int) =~= v@.subrange(start as int, n as int));
    let mut r: Vec<char> = Vec::new();
    let mut i = start;
    while i < end
        invariant
            start <= i <= end <= n,
            n == v@.len(),
            r@ == v@.subrange(start as int, i as int),
        decreases end - i,
    {
        r.push(v[i]);
        assert(r@ =~= v@.subrange(start as int, i + 1));
        i = i + 1;
    }
    r
}


// ---------------------------------------------------------------------------
// Lines and words
// ---------------------------------------------------------------------------

/// A line without the carriage return that ends it, if any.
pub open spec fn strip_cr(l: Seq<char>) -> Seq<char> {
    if l.len() > 0 && l.last() == '\r' {
        l.drop_last()
    } else {
        l
    }
}

/// Scanning `s` for lines: the lines ended by `\n` so far (without their
/// `\r\n` or `\n`), and the characters after the last `\n`.
pub open spec fn line_scan(s: Seq<char>) -> (Seq<Seq<char>>, Seq<char>)
    decreases s.len(),
{
    if s.len() == 0 {
        (Seq::empty(), Seq::empty())
    } else {
        let (done, cur) = line_scan(s.drop_last());
        if s.last() == '\n' {
            (done.push(strip_cr(cur)), Seq::empty())
        } else {
            (done, cur.push(s.last()))
        }
    }
}

/// The lines of `s`, as `str::lines` yields them: split at `\n` or `\r\n`,
/// with no empty line after a final line ending.
pub open spec fn lines(s: Seq<char>) -> Seq<Seq<char>> {
    let (done, cur) = line_scan(s);
    if cur.len() > 0 {
        done.push(cur)
    } else {
        done
    }
}

/// Scanning `s` for words: the words closed by whitespace so far, and the
/// word being read.
pub open spec fn word_scan(s: Seq<char>) -> (Seq<Seq<char>>, Seq<char>)
    decreases s.len(),
{
    if s.len() == 0 {
        (Seq::empty(), Seq::empty())
    } else {
        let (done, cur) = word_scan(s.drop_last());
        if unicode_white_space(s.last()) {
            if cur.len() > 0 {
                (done.push(cur), Seq::empty())
            } else {
                (done, cur)
            }
        } else {
            (done, cur.push(s.last()))
        }
    }
}

/// The words of `s`, as `str::split_whitespace` yields them: the maximal
/// runs of characters that are not whitespace, in order.
pub open spec fn words(s: Seq<char>) -> Seq<Seq<char>> {
    let (done, cur) = word_scan(s);
    if cur.len() > 0 {
        done.push(cur)
    } else {
        done
    }
}

/// The character sequences held by a sequence of character vectors.
pub open spec fn char_vecs(v: Seq<Vec<char>>) -> Seq<Seq<char>> {
    v.map_values(|w: Vec<char>| w@)
}

/// Splits `v` into lines.
pub fn split_lines(v: &[char]) -> (r: Vec<Vec<char>>)
    ensures
        char_vecs(r@) == lines(v@),
{
    let mut done: Vec<Vec<char>> = Vec::new();
    let mut cur: Vec<char> = Vec::new();
    for i in 0..v.len()
        invariant
            (char_vecs(done@), cur@) == line_scan(v@.take(i as int)),
    {
        let c = v[i];
        assert(v@.take(i + 1).drop_last() =~= v@.take(i as int));
        if c == '\n' {
            if cur.len() > 0 && cur[cur.len() - 1] == '\r' {
                cur.pop();
            }
            let ghost before = done@;
            let line = cur;
            done.push(line);
            cur = Vec::new();
            assert(char_vecs(done@) =~= char_vecs(before).push(line@));
        } else {
            cur.push(c);
        }
    }
    assert(v@.take(v.len() as int) =~= v@);
    if cur.len() > 0 {
        let ghost before = done@;
        let last = cur;
        done.push(last);
        assert(char_vecs(done@) =~= char_vecs(before).push(last@));
    }
    done
}

/// Splits `v` into words.
pub fn split_words(v: &[char]) -> (r: Vec<Vec<char>>)
    ensures
        char_vecs(r@) == words(v@),
{
    let mut done: Vec<Vec<char>> = Vec::new();
    let mut cur: Vec<char> = Vec::new();
    for i in 0..v.len()
        invariant
            (char_vecs(done@), cur@) == word_scan(v@.take(i as int)),
    {
        let c = v[i];
        assert(v@.take(i + 1).drop_last() =~= v@.take(i as int));
        if is_whitespace(c) {
            if cur.len() > 0 {
                let ghost before = done@;
                let word = cur;
                done.push(word);
                cur = Vec::new();
                assert(char_vecs(done@) =~= char_vecs(before).push(word@));
            }
        } else {
            cur.push(c);
        }
    }
    assert(v@.take(v.len() as int) =~= v@);
    if cur.len() > 0 {
        let ghost before = done@;
        let last = cur;
        done.push(last);
        assert(char_vecs(done@) =~= char_vecs(before).push(last@));
    }
    done
}


// ---------------------------------------------------------------------------
// Layout
// ---------------------------------------------------------------------------

/// `n` spaces.
pub open spec fn spaces(n: nat) -> Seq<char> {
    Seq::new(n, |i: int| ' ')
}

/// Appends `n` spaces to `s`.
fn push_spaces(s: &mut String, n: usize)
    ensures
        final(s)@ == old(s)@ + spaces(n as nat),
{
    let ghost start = s@;
    for i in 0..n
        invariant
            s@ == start + spaces(i as nat),
    {
        push_char(s, ' ');
        assert(start + spaces((i + 1) as nat) =~= (start + spaces(i as nat)).push(' '));
    }
}

/// What a display of `width` characters shows of `s`: `s` itself when it
/// fits, else its first `width - 1` characters followed by `~`.
pub open spec fn fit_display_spec(s: Seq<char>, width: nat) -> Seq<char> {
    if s.len() <= width {
        s
    } else {
        s.take(if width >= 1 {
            width - 1
        } else {
            0
        }) + seq!['~']
    }
}

/// Shortens `value` to at most `width` characters, marking a cut with `~`.
pub fn fit_display(value: &str, width: usize) -> (r: String)
    ensures
        r@ == fit_display_spec(value@, width as nat),
{
    let chars = chars_of(value);
    if chars.len() <= width {
        return String::from_str(value);
    }
    let keep = if width >= 1 {
        width - 1
    } else {
        0
    };
    let mut r = String::new();
    for i in 0..keep
        invariant
            keep < chars@.len(),
            chars@ == value@,
            r@ == chars@.take(i as int),
    {
        push_char(&mut r, chars[i]);
        assert(chars@.take(i + 1) =~= chars@.take(i as int).push(chars@[i as int]));
    }
    push_char(&mut r, '~');
    assert(r@ =~= fit_display_spec(value@, width as nat));
    r
}

/// `s` padded with spaces to `width` columns, given that it already takes
/// `current` columns.
pub open spec fn pad_spec(s: Seq<char>, current: nat, width: nat) -> Seq<char> {
    if current >= width {
        s
    } else {
        s + spaces((width - current) as nat)
    }
}

/// Pads `value`, which takes `current` columns, with spaces to `width`
/// columns.
pub fn pad_with_width(value: &str, current: usize, width: usize) -> (r: String)
    ensures
        r@ == pad_spec(value@, current as nat, width as nat),
{
    let mut r = String::from_str(value);
    if current < width {
        push_spaces(&mut r, width - current);
    }
    r
}

/// Pads `value` with spaces to `width` terminal columns.
pub fn pad_to(value: &str, width: usize) -> (r: String)
    ensures
        r@ == pad_spec(value@, display_width(value@) as nat, width as nat),
        display_width(r@) == if display_width(value@) >= width {
            display_width(value@)
        } else {
            width
        },
        printable_ascii(value@) ==> display_width(value@) == value@.len(),
{
    let current = str_display_width(value);
    let r = pad_with_width(value, current, width);
    if current < width {
        assert(display_width(value@ + spaces((width - current) as nat)) == current + (width
            - current));
    } else {
        assert(value@ + spaces(0) =~= value@);
        assert(display_width(value@ + spaces(0)) == current + 0);
    }
    r
}

/// A field of a menu line: `value` cut to `fit` characters (see
/// [`fit_display`]) and padded with spaces to `width` columns.
pub fn menu_field(value: &str, fit: usize, width: usize) -> (r: String)
    ensures
        r@ == pad_spec(
            fit_display_spec(value@, fit as nat),
            display_width(fit_display_spec(value@, fit as nat)) as nat,
            width as nat,
        ),
        printable_ascii(value@) && 1 <= fit <= width ==> r@.len() == width && display_width(r@)
            == width,
{
    let fitted = fit_display(value, fit);
    let r = pad_to(fitted.as_str(), width);
    proof {
        if printable_ascii(value@) && 1 <= fit <= width {
            let f = fitted@;
            assert(printable_ascii(f)) by {
                assert forall|i: int| 0 <= i < f.len() implies ' ' <= #[trigger] f[i] && f[i]
                    <= '~' by {
                    if value@.len() > fit && i < f.len() - 1 {
                        assert(f[i] == value@[i]);
                    } else if value@.len() <= fit {
                        assert(f[i] == value@[i]);
                    }
                }
            }
            assert(f.len() <= fit);
        }
    }
    r
}

/// `s` centred in `width` characters: the spaces before it are half of
/// those it leaves, rounded down.
pub open spec fn centered_spec(s: Seq<char>, width: nat) -> Seq<char> {
    let room = (width - s.len()) as nat;
    spaces(room / 2) + s + spaces((room - room / 2) as nat)
}

/// Centres `text` in a field of `width` characters.
pub fn centered(text: &str, width: usize) -> (r: String)
    requires
        text@.len() <= width,
    ensures
        r@ == centered_spec(text@, width as nat),
{
    let len = chars_of(text).len();
    let room = width - len;
    let left = room / 2;
    let mut r = String::new();
    push_spaces(&mut r, left);
    r.append(text);
    push_spaces(&mut r, room - left);
    assert(r@ =~= centered_spec(text@, width as nat));
    r
}

/// The items of `items` with `sep` between each two.
pub open spec fn join_spec(items: Seq<Seq<char>>, sep: Seq<char>) -> Seq<char>
    decreases items.len(),
{
    if items.len() == 0 {
        Seq::empty()
    } else if items.len() == 1 {
        items[0]
    } else {
        join_spec(items.drop_last(), sep) + sep + items.last()
    }
}

/// Joins `items` with `sep` between each two.
pub fn join(items: &[String], sep: &str) -> (r: String)
    ensures
        r@ == join_spec(items@.map_values(|x: String| x@), sep@),
{
    let ghost all = items@.map_values(|x: String| x@);
    let mut r = String::new();
    for i in 0..items.len()
        invariant
            all == items@.map_values(|x: String| x@),
            r@ == join_spec(all.take(i as int), sep@),
    {
        assert(all.take(i + 1).drop_last() =~= all.take(i as int));
        assert(all.take(i + 1).last() == items@[i as int]@);
        if i > 0 {
            r.append(sep);
        } else {
            assert(all.take(1)[0] == items@[0]@);
        }
        r.append(items[i].as_str());
    }
    assert(all.take(items.len() as int) =~= all);
    r
}

// ---------------------------------------------------------------------------
// Numbers
// ---------------------------------------------------------------------------

/// What a command's output gives as a one-line value: the text without
/// surrounding whitespace, or `unknown` when there is no text.
pub open spec fn output_line_spec(output: Option<Seq<char>>) -> Seq<char> {
    match output {
        Some(t) => trim_whitespace(t),
        None => "unknown"@,
    }
}

/// A one-line value from a command's decoded output (`None` when the command
/// could not run or its output is not UTF-8).
pub fn output_line(output: Option<&str>) -> (r: String)
    ensures
        r@ == output_line_spec(match output {
            Some(t) => Some(t@),
            None => None,
        }),
{
    match output {
        Some(t) => {
            let chars = chars_of(t);
            let trimmed = trim_chars(chars.as_slice(), true);
            string_from_chars(trimmed.as_slice())
        },
        None => String::from_str("unknown"),
    }
}

/// Whether `c` is one of the ASCII digits `0` to `9`.
pub open spec fn is_digit(c: char) -> bool {
    '0' <= c && c <= '9'
}

/// The value of a digit character.
pub open spec fn digit_value(c: char) -> int {
    (c as int) - ('0' as int)
}

/// The number that a sequence of decimal digits writes.
pub open spec fn decimal_value(d: Seq<char>) -> int
    decreases d.len(),
{
    if d.len() == 0 {
        0
    } else {
        decimal_value(d.drop_last()) * 10 + digit_value(d.last())
    }
}

/// The digits of a number after an optional `+`.
pub open spec fn unsigned_digits(t: Seq<char>) -> Seq<char> {
    if t.len() > 0 && t[0] == '+' {
        t.drop_first()
    } else {
        t
    }
}

/// What `str::parse::<u32>` gives for `t`: the number its digits write,
/// after an optional `+`, when there is at least one digit, nothing else,
/// and the number fits in 32 bits.
pub open spec fn parse_u32_spec(t: Seq<char>) -> Option<u32> {
    let d = unsigned_digits(t);
    if d.len() > 0 && (forall|i: int| 0 <= i < d.len() ==> is_digit(#[trigger] d[i]))
        && decimal_value(d) <= u32::MAX {
        Some(decimal_value(d) as u32)
    } else {
        None
    }
}

/// Reads a menu choice typed by the user: a decimal number in 32 bits,
/// with whitespace around it allowed.
pub fn parse_choice(input: &str) -> (r: Option<u32>)
    ensures
        r == parse_u32_spec(trim_whitespace(input@)),
{
    let chars = chars_of(input);
    let t = trim_chars(chars.as_slice(), true);
    let ghost d = unsigned_digits(t@);
    let start: usize = if t.len() > 0 && t[0] == '+' {
        1
    } else {
        0
    };
    assert(d =~= t@.skip(start as int));
    if start >= t.len() {
        return None;
    }
    let mut value: u64 = 0;
    let mut overflow = false;
    let mut i = start;
    while i < t.len()
        invariant
            start <= i <= t@.len(),
            t@ == trim_whitespace(input@),
            d == unsigned_digits(t@),
            d == t@.skip(start as int),
            forall|j: int| 0 <= j < i - start ==> is_digit(#[trigger] d[j]),
            !overflow ==> value == decimal_value(d.take(i - start)) && value <= u32::MAX,
            overflow ==> decimal_value(d.take(i - start)) > u32::MAX,
        decreases t.len() - i,
    {
        let c = t[i];
        assert(d[i - start] == c);
        if !('0' <= c && c <= '9') {
            assert(!is_digit(d[i - start]));
            return None;
        }
        let ghost k = i - start;
        assert(d.take(k + 1).drop_last() =~= d.take(k));
        assert(d.take(k + 1).last() == c);
        if !overflow {
            value = value * 10 + ((c as u32) - ('0' as u32)) as u64;
            if value > 4294967295 {
                overflow = true;
            }
        }
        i = i + 1;
    }
    assert(d.take(d.len() as int) =~= d);
    if overflow {
        None
    } else {
        Some(value as u32)
    }
}


/// The digit character of a value below ten.
pub open spec fn digit_char(d: int) -> char {
    (('0' as int) + d) as char
}

/// The decimal digits of a number, as it is printed.
pub open spec fn decimal_digits(n: nat) -> Seq<char>
    decreases n,
{
    if n < 10 {
        seq![digit_char(n as int)]
    } else {
        decimal_digits(n / 10).push(digit_char((n % 10) as int))
    }
}

proof fn lemma_decimal_digits(n: nat)
    ensures
        decimal_digits(n).len() > 0,
        forall|i: int|
            0 <= i < decimal_digits(n).len() ==> is_digit(#[trigger] decimal_digits(n)[i]),
        decimal_digits(n)[0] != '+',
        decimal_value(decimal_digits(n)) == n,
    decreases n,
{
    if n >= 10 {
        let q = n / 10;
        let r = n % 10;
        lemma_decimal_digits(q);
        let s = decimal_digits(n);
        assert(s.drop_last() =~= decimal_digits(q));
        assert(q * 10 + r == n) by (nonlinear_arith)
            requires
                q == n / 10,
                r == n % 10,
        ;
        assert(0 <= r < 10);
        assert(digit_value(digit_char(r as int)) == r);
        assert(forall|i: int| 0 <= i < s.len() - 1 ==> s[i] == decimal_digits(q)[i]);
        assert(s.last() == digit_char(r as int));
        assert(decimal_value(s) == decimal_value(decimal_digits(q)) * 10 + r);
    } else {
        let s = decimal_digits(n);
        assert(s.drop_last() =~= Seq::<char>::empty());
        assert(digit_value(digit_char(n as int)) == n);
        assert(decimal_value(s) == decimal_value(s.drop_last()) * 10 + digit_value(s.last()));
    }
}

/// The digit character of a value below ten.
fn digit_of(d: u32) -> (c: char)
    requires
        d < 10,
    ensures
        c == digit_char(d as int),
{
    ((d as u8) + 48) as char
}

/// A number written in decimal.
pub fn decimal_string(n: u32) -> (r: String)
    ensures
        r@ == decimal_digits(n as nat),
    decreases n,
{
    if n < 10 {
        let mut r = String::new();
        push_char(&mut r, digit_of(n));
        assert(r@ =~= decimal_digits(n as nat));
        r
    } else {
        let mut r = decimal_string(n / 10);
        push_char(&mut r, digit_of(n % 10));
        r
    }
}

/// A number printed in decimal and typed back as a line (ending in `\n`) is
/// read as the same number.
pub proof fn law_typed_number_reads_back(n: u32)
    ensures
        parse_u32_spec(trim_whitespace(decimal_digits(n as nat) + seq!['\n'])) == Some(n),
{
    lemma_decimal_digits(n as nat);
    let d = decimal_digits(n as nat);
    let line = d + seq!['\n'];
    assert(line[0] == d[0]);
    assert(is_digit(d[0]));
    assert(skip_leading(line, true) == line);
    assert(line.drop_last() =~= d);
    assert(line.last() == '\n');
    assert(is_digit(d.last())) by {
        assert(d.last() == d[d.len() - 1]);
    }
    assert(skip_trailing(line, true) == skip_trailing(d, true));
    assert(skip_trailing(d, true) == d);
    assert(unsigned_digits(d) == d);
}

/// A display of at least one character never shows more characters than
/// its width, and shows a value that fits unchanged.
pub proof fn law_fit_display_fits(s: Seq<char>, width: nat)
    requires
        width >= 1,
    ensures
        fit_display_spec(s, width).len() <= width,
        s.len() <= width ==> fit_display_spec(s, width) == s,
{
}

/// A centred text fills exactly its field.
pub proof fn law_centered_fills_width(s: Seq<char>, width: nat)
    requires
        s.len() <= width,
    ensures
        centered_spec(s, width).len() == width,
{
}

} // verus!
