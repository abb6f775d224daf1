//! Colors written as text.
//!
//! A color token has the form `rgb(r, g, b)` or `rgb(r, g, b, a)`. Each
//! channel is one to three decimal digits that spell a number up to 255, and
//! may have spaces before and after it. A token without an alpha channel is
//! opaque. The canonical form of a color has all four channels, no spaces and
//! no leading zeros: `rgb(255,0,0,255)`.
//!
//! [`spells`] says which texts are tokens of a color. [`color_of`] reads a
//! text from left to right, and [`lemma_color_of_reads_tokens`] shows that it
//! finds exactly the tokens.

use vstd::prelude::*;
use vstd::string::StringExecFns;
use vstd::utf8::is_ascii_chars;

verus! {

/// A color with eight bits for each of red, green, blue and alpha.
#[derive(Clone, Copy, PartialEq, Eq, Debug, Structural)]
pub struct Rgba {
    pub r: u8,
    pub g: u8,
    pub b: u8,
    pub a: u8,
}

/// The text is not a color token.
#[derive(Clone, Copy, PartialEq, Eq, Debug, Structural)]
pub struct ParseError;

/// Whether `c` is a decimal digit.
pub open spec fn is_digit(c: char) -> bool {
    '0' <= c <= '9'
}

/// The number that `digits` spell in base ten.
pub open spec fn decimal(digits: Seq<char>) -> nat
    decreases digits.len(),
{
    if digits.len() == 0 {
        0
    } else {
        decimal(digits.drop_last()) * 10 + (digits.last() as nat - '0' as nat) as nat
    }
}

/// Whether `digits` are a numeral of `n`: one to three decimal digits that
/// spell it.
pub open spec fn is_numeral(digits: Seq<char>, n: u8) -> bool {
    &&& 1 <= digits.len() <= 3
    &&& forall|i: int| 0 <= i < digits.len() ==> is_digit(digits[i])
    &&& decimal(digits) == n
}

/// `count` spaces.
pub open spec fn spaces(count: nat) -> Seq<char> {
    Seq::new(count, |i: int| ' ')
}

/// A channel as it is written: digits with spaces before and after them.
pub struct Channel {
    pub lead: nat,
    pub digits: Seq<char>,
    pub trail: nat,
}

impl Channel {
    /// The channel's text.
    pub open spec fn text(self) -> Seq<char> {
        spaces(self.lead) + self.digits + spaces(self.trail)
    }
}

/// The token that is made of the channels as they are written.
pub open spec fn token(r: Channel, g: Channel, b: Channel, a: Option<Channel>) -> Seq<char> {
    let opaque = seq!['r', 'g', 'b', '('] + r.text() + seq![','] + g.text() + seq![','] + b.text();
    match a {
        Some(a) => opaque + seq![','] + a.text() + seq![')'],
        None => opaque + seq![')'],
    }
}

/// Whether `text` is a token of `color`.
pub open spec fn spells(text: Seq<char>, color: Rgba) -> bool {
    exists|r: Channel, g: Channel, b: Channel, a: Option<Channel>|
        {
            &&& text == #[trigger] token(r, g, b, a)
            &&& is_numeral(r.digits, color.r)
            &&& is_numeral(g.digits, color.g)
            &&& is_numeral(b.digits, color.b)
            &&& match a {
                Some(a) => is_numeral(a.digits, color.a),
                None => color.a == 255,
            }
        }
}

/// The first position at or after `from` that holds no space.
pub open spec fn after_spaces(text: Seq<char>, from: int) -> int
    decreases text.len() - from,
{
    if 0 <= from < text.len() && text[from] == ' ' {
        after_spaces(text, from + 1)
    } else {
        from
    }
}

/// The first position at or after `from` that holds no digit.
pub open spec fn after_digits(text: Seq<char>, from: int) -> int
    decreases text.len() - from,
{
    if 0 <= from < text.len() && is_digit(text[from]) {
        after_digits(text, from + 1)
    } else {
        from
    }
}

/// The channel that begins at `from`, and the position behind it and the
/// spaces that follow it.
pub open spec fn channel_at(text: Seq<char>, from: int) -> Option<(u8, int)> {
    let first = after_spaces(text, from);
    let end = after_digits(text, first);
    let digits = text.subrange(first, end);
    if 1 <= end - first <= 3 && decimal(digits) <= 255 {
        Some((decimal(digits) as u8, after_spaces(text, end)))
    } else {
        None
    }
}

/// Whether `text` holds `c` at `at`.
pub open spec fn holds(text: Seq<char>, at: int, c: char) -> bool {
    0 <= at < text.len() && text[at] == c
}

/// Whether `text` ends at `at` with a closing bracket.
pub open spec fn closes(text: Seq<char>, at: int) -> bool {
    holds(text, at, ')') && at + 1 == text.len()
}

/// Whether `text` begins with `rgb(`.
pub open spec fn opens(text: Seq<char>) -> bool {
    holds(text, 0, 'r') && holds(text, 1, 'g') && holds(text, 2, 'b') && holds(text, 3, '(')
}

/// The color of which `text` is a token, if it is one of any.
pub open spec fn color_of(text: Seq<char>) -> Option<Rgba> {
    if !is_ascii_chars(text) || !opens(text) {
        None
    } else if let Some((r, i)) = channel_at(text, 4) {
        if !holds(text, i, ',') {
            None
        } else if let Some((g, j)) = channel_at(text, i + 1) {
            if !holds(text, j, ',') {
                None
            } else if let Some((b, k)) = channel_at(text, j + 1) {
                if closes(text, k) {
                    Some(Rgba { r, g, b, a: 255 })
                } else if !holds(text, k, ',') {
                    None
                } else if let Some((a, m)) = channel_at(text, k + 1) {
                    if closes(text, m) {
                        Some(Rgba { r, g, b, a })
                    } else {
                        None
                    }
                } else {
                    None
                }
            } else {
                None
            }
        } else {
            None
        }
    } else {
        None
    }
}

/// The digit for `d`, which is less than ten.
pub open spec fn digit(d: nat) -> char {
    (d + '0' as nat) as char
}

/// `n` in decimal digits, without leading zeros.
#[verifier::opaque]
pub open spec fn digits_of(n: u8) -> Seq<char> {
    if n >= 100 {
        seq![digit(n as nat / 100), digit(n as nat / 10 % 10), digit(n as nat % 10)]
    } else if n >= 10 {
        seq![digit(n as nat / 10), digit(n as nat % 10)]
    } else {
        seq![digit(n as nat)]
    }
}

/// The canonical token of `color`.
pub open spec fn canonical(color: Rgba) -> Seq<char> {
    seq!['r', 'g', 'b', '('] + digits_of(color.r) + seq![','] + digits_of(color.g) + seq![',']
        + digits_of(color.b) + seq![','] + digits_of(color.a) + seq![')']
}

/// Whether `bytes` are the characters of `text`, one byte for each.
spec fn spelled(text: Seq<char>, bytes: Seq<u8>) -> bool {
    &&& is_ascii_chars(text)
    &&& bytes.len() == text.len()
    &&& forall|i: int| 0 <= i < text.len() ==> #[trigger] bytes[i] == text[i] as u8
}

fn skip_spaces(bytes: &[u8], from: usize, Ghost(text): Ghost<Seq<char>>) -> (to: usize)
    requires
        spelled(text, bytes@),
        from <= bytes.len(),
    ensures
        to == after_spaces(text, from as int),
        from <= to <= bytes.len(),
{
    let mut to: usize = from;
    while to < bytes.len() && bytes[to] == 32u8
        invariant
            spelled(text, bytes@),
            from <= to <= bytes.len(),
            after_spaces(text, from as int) == after_spaces(text, to as int),
        decreases bytes.len() - to,
    {
        to += 1;
    }
    to
}

fn read_channel(bytes: &[u8], from: usize, Ghost(text): Ghost<Seq<char>>) -> (channel: Option<
    (u8, usize),
>)
    requires
        spelled(text, bytes@),
        from <= bytes.len(),
    ensures
        match channel {
            Some((value, next)) => channel_at(text, from as int) == Some((value, next as int))
                && next <= bytes.len(),
            None => channel_at(text, from as int) is None,
        },
{
    let first = skip_spaces(bytes, from, Ghost(text));
    let mut end: usize = first;
    let mut value: u32 = 0;
    while end < bytes.len() && end - first < 4 && 48u8 <= bytes[end] && bytes[end] <= 57u8
        invariant
            spelled(text, bytes@),
            first <= end <= bytes.len(),
            end - first <= 4,
            after_digits(text, first as int) == after_digits(text, end as int),
            value == decimal(text.subrange(first as int, end as int)),
            end - first == 0 ==> value == 0,
            end - first == 1 ==> value <= 9,
            end - first == 2 ==> value <= 99,
            end - first == 3 ==> value <= 999,
            value <= 9999,
        decreases bytes.len() - end,
    {
        proof {
            assert(text.subrange(first as int, end + 1).drop_last() =~= text.subrange(
                first as int,
                end as int,
            ));
        }
        value = value * 10 + (bytes[end] - 48u8) as u32;
        end += 1;
    }
    proof {
        if end - first == 4 {
            lemma_after_digits_grows(text, end as int);
        }
    }
    if end - first < 1 || end - first > 3 || value > 255 {
        None
    } else {
        let next = skip_spaces(bytes, end, Ghost(text));
        Some((value as u8, next))
    }
}

/// Digits never end before the position from which they are counted.
proof fn lemma_after_digits_grows(text: Seq<char>, from: int)
    ensures
        after_digits(text, from) >= from,
    decreases text.len() - from,
{
    if 0 <= from < text.len() && is_digit(text[from]) {
        lemma_after_digits_grows(text, from + 1);
    }
}

/// The text of one digit.
fn digit_text(d: u8) -> (text: &'static str)
    requires
        d < 10,
    ensures
        text@ == seq![digit(d as nat)],
{
    proof {
        reveal_strlit("0");
        reveal_strlit("1");
        reveal_strlit("2");
        reveal_strlit("3");
        reveal_strlit("4");
        reveal_strlit("5");
        reveal_strlit("6");
        reveal_strlit("7");
        reveal_strlit("8");
        reveal_strlit("9");
    }
    let text = match d {
        0 => "0",
        1 => "1",
        2 => "2",
        3 => "3",
        4 => "4",
        5 => "5",
        6 => "6",
        7 => "7",
        8 => "8",
        _ => "9",
    };
    assert(text@ =~= seq![digit(d as nat)]);
    text
}

/// Appends `n` in decimal digits.
fn push_number(out: &mut String, n: u8)
    ensures
        final(out)@ == old(out)@ + digits_of(n),
{
    let ghost before = out@;
    proof {
        reveal(digits_of);
    }
    if n >= 100 {
        out.append(digit_text(n / 100));
    }
    if n >= 10 {
        out.append(digit_text(n / 10 % 10));
    }
    out.append(digit_text(n % 10));
    assert(out@ =~= before + digits_of(n));
}

impl Rgba {
    /// The canonical token of the color, which reads back as the color.
    pub fn to_text(&self) -> (text: String)
        ensures
            text@ == canonical(*self),
            color_of(text@) == Some(*self),
    {
        proof {
            lemma_canonical_spells_color(*self);
            reveal_strlit("rgb(");
            reveal_strlit(",");
            reveal_strlit(")");
        }
        let mut out = String::from_str("rgb(");
        push_number(&mut out, self.r);
        out.append(",");
        push_number(&mut out, self.g);
        out.append(",");
        push_number(&mut out, self.b);
        out.append(",");
        push_number(&mut out, self.a);
        out.append(")");
        assert(out@ =~= canonical(*self));
        out
    }

    /// Reads a color token: gives the color of which `text` is a token, and
    /// fails where it is a token of none.
    pub fn parse(text: &str) -> (color: Result<Rgba, ParseError>)
        ensures
            color == match color_of(text@) {
                Some(read) => Ok::<Rgba, ParseError>(read),
                None => Err(ParseError),
            },
            match color {
                Ok(read) => spells(text@, read),
                Err(_) => forall|any: Rgba| !spells(text@, any),
            },
    {
        proof {
            assert forall|any: Rgba| color_of(text@) == Some(any) <==> #[trigger] spells(
                text@,
                any,
            ) by {
                lemma_color_of_reads_tokens(text@, any);
            }
        }
        if !text.is_ascii() {
            return Err(ParseError);
        }
        let bytes = text.as_bytes();
        proof {
            vstd::string::is_ascii_spec_bytes(text);
            assert(spelled(text@, bytes@));
        }
        let n = bytes.len();
        if n < 4 || bytes[0] != 114u8 || bytes[1] != 103u8 || bytes[2] != 98u8 || bytes[3] != 40u8 {
            return Err(ParseError);
        }
        let (r, i) = match read_channel(bytes, 4, Ghost(text@)) {
            Some(channel) => channel,
            None => { return Err(ParseError); },
        };
        if i >= n || bytes[i] != 44u8 {
            return Err(ParseError);
        }
        let (g, j) = match read_channel(bytes, i + 1, Ghost(text@)) {
            Some(channel) => channel,
            None => { return Err(ParseError); },
        };
        if j >= n || bytes[j] != 44u8 {
            return Err(ParseError);
        }
        let (b, k) = match read_channel(bytes, j + 1, Ghost(text@)) {
            Some(channel) => channel,
            None => { return Err(ParseError); },
        };
        if k >= n {
            return Err(ParseError);
        }
        if bytes[k] == 41u8 {
            return if k + 1 == n {
                Ok(Rgba { r, g, b, a: 255 })
            } else {
                Err(ParseError)
            };
        }
        if bytes[k] != 44u8 {
            return Err(ParseError);
        }
        let (a, m) = match read_channel(bytes, k + 1, Ghost(text@)) {
            Some(channel) => channel,
            None => { return Err(ParseError); },
        };
        if m < n && bytes[m] == 41u8 && m + 1 == n {
            Ok(Rgba { r, g, b, a })
        } else {
            Err(ParseError)
        }
    }
}

/// Where `count` spaces stand at `from` and no space follows them, the
/// spaces end behind them.
proof fn lemma_spaces_run(text: Seq<char>, from: int, count: nat)
    requires
        0 <= from,
        from + count <= text.len(),
        forall|i: int| from <= i < from + count ==> text[i] == ' ',
        from + count == text.len() || text[from + count] != ' ',
    ensures
        after_spaces(text, from) == from + count,
    decreases count,
{
    if count > 0 {
        lemma_spaces_run(text, from + 1, (count - 1) as nat);
    }
}

/// Where `count` digits stand at `from` and no digit follows them, the
/// digits end behind them.
proof fn lemma_digits_run(text: Seq<char>, from: int, count: nat)
    requires
        0 <= from,
        from + count <= text.len(),
        forall|i: int| from <= i < from + count ==> is_digit(text[i]),
        from + count == text.len() || !is_digit(text[from + count]),
    ensures
        after_digits(text, from) == from + count,
    decreases count,
{
    if count > 0 {
        lemma_digits_run(text, from + 1, (count - 1) as nat);
    }
}

/// The spaces at `from` end within the text, and only spaces stand before
/// their end.
proof fn lemma_after_spaces(text: Seq<char>, from: int)
    requires
        0 <= from <= text.len(),
    ensures
        from <= after_spaces(text, from) <= text.len(),
        text.subrange(from, after_spaces(text, from)) == spaces(
            (after_spaces(text, from) - from) as nat,
        ),
    decreases text.len() - from,
{
    let end = after_spaces(text, from);
    if from < text.len() && text[from] == ' ' {
        lemma_after_spaces(text, from + 1);
        assert forall|i: int| 0 <= i < end - from implies text.subrange(from, end)[i] == ' ' by {
            if i > 0 {
                assert(text.subrange(from + 1, end)[i - 1] == text[from + i]);
                assert(spaces((end - from - 1) as nat)[i - 1] == ' ');
            }
        }
    }
    assert(text.subrange(from, end) =~= spaces((end - from) as nat));
}

/// The digits at `from` end within the text, and only digits stand before
/// their end.
proof fn lemma_after_digits(text: Seq<char>, from: int)
    requires
        0 <= from <= text.len(),
    ensures
        from <= after_digits(text, from) <= text.len(),
        forall|i: int| from <= i < after_digits(text, from) ==> is_digit(text[i]),
    decreases text.len() - from,
{
    if from < text.len() && is_digit(text[from]) {
        lemma_after_digits(text, from + 1);
    }
}

/// A channel that is written in `text` at `from`, and is followed by
/// something other than a digit or a space, is read there.
proof fn lemma_written_channel_is_read(text: Seq<char>, from: int, channel: Channel, n: u8)
    requires
        0 <= from,
        from + channel.text().len() < text.len(),
        text.subrange(from, from + channel.text().len()) == channel.text(),
        is_numeral(channel.digits, n),
        !is_digit(text[from + channel.text().len()]),
        text[from + channel.text().len()] != ' ',
    ensures
        channel_at(text, from) == Some((n, from + channel.text().len())),
{
    let written = channel.text();
    let first = from + channel.lead;
    let end = first + channel.digits.len();
    let next = end + channel.trail;
    assert(next == from + written.len());
    assert forall|i: int| 0 <= i < written.len() implies text[from + i] == #[trigger] written[i] by {
        assert(text.subrange(from, next)[i] == text[from + i]);
    }
    assert forall|i: int| from <= i < first implies text[i] == ' ' by {
        assert(written[i - from] == ' ');
    }
    assert forall|i: int| first <= i < end implies is_digit(text[i]) by {
        assert(written[i - from] == channel.digits[i - first]);
    }
    assert forall|i: int| end <= i < next implies text[i] == ' ' by {
        assert(written[i - from] == ' ');
    }
    assert(text[first] != ' ');
    lemma_spaces_run(text, from, channel.lead);
    lemma_digits_run(text, first, channel.digits.len());
    lemma_spaces_run(text, end, channel.trail);
    assert(text.subrange(first, end) =~= channel.digits) by {
        assert forall|i: int| 0 <= i < end - first implies text.subrange(first, end)[i]
            == channel.digits[i] by {
            assert(written[first - from + i] == channel.digits[i]);
        }
    }
}

/// A channel that stands between `pre` and `stop` is read there, and `stop`
/// is found behind it.
proof fn lemma_channel_between(pre: Seq<char>, channel: Channel, n: u8, stop: char, post: Seq<char>)
    requires
        is_numeral(channel.digits, n),
        !is_digit(stop),
        stop != ' ',
    ensures
        ({
            let text = pre + channel.text() + seq![stop] + post;
            let end = pre.len() + channel.text().len();
            &&& channel_at(text, pre.len() as int) == Some((n, end as int))
            &&& holds(text, end as int, stop)
            &&& text.len() == end + 1 + post.len()
        }),
{
    let text = pre + channel.text() + seq![stop] + post;
    let end = pre.len() + channel.text().len();
    assert(text.subrange(pre.len() as int, end as int) =~= channel.text());
    assert(text[end as int] == stop);
    lemma_written_channel_is_read(text, pre.len() as int, channel, n);
}

/// A channel that is read was written: from where it is read to where the
/// text goes on stand its spaces, its digits and its spaces again.
proof fn lemma_read_channel_is_written(text: Seq<char>, from: int, n: u8, next: int) -> (channel:
    Channel)
    requires
        0 <= from <= text.len(),
        channel_at(text, from) == Some((n, next)),
    ensures
        from <= next <= text.len(),
        text.subrange(from, next) == channel.text(),
        is_numeral(channel.digits, n),
{
    let first = after_spaces(text, from);
    lemma_after_spaces(text, from);
    let end = after_digits(text, first);
    lemma_after_digits(text, first);
    lemma_after_spaces(text, end);
    let channel = Channel {
        lead: (first - from) as nat,
        digits: text.subrange(first, end),
        trail: (next - end) as nat,
    };
    assert(text.subrange(from, next) =~= text.subrange(from, first) + text.subrange(first, end)
        + text.subrange(end, next));
    channel
}

/// What a channel is made of is ASCII.
proof fn lemma_channel_is_ascii(channel: Channel, n: u8)
    requires
        is_numeral(channel.digits, n),
    ensures
        is_ascii_chars(channel.text()),
{
    let text = channel.text();
    assert forall|i: int| 0 <= i < text.len() implies '\0' <= #[trigger] text[i] <= '\u{7f}' by {
        if i < channel.lead {
            assert(text[i] == ' ');
        } else if i < channel.lead + channel.digits.len() {
            assert(text[i] == channel.digits[i - channel.lead]);
        } else {
            assert(text[i] == ' ');
        }
    }
}

/// A token is ASCII and begins with `rgb(`.
proof fn lemma_token_is_ascii(r: Channel, g: Channel, b: Channel, a: Option<Channel>, color: Rgba)
    requires
        is_numeral(r.digits, color.r),
        is_numeral(g.digits, color.g),
        is_numeral(b.digits, color.b),
        a is Some ==> is_numeral(a.unwrap().digits, color.a),
    ensures
        is_ascii_chars(token(r, g, b, a)),
        opens(token(r, g, b, a)),
{
    let head = seq!['r', 'g', 'b', '('];
    let comma = seq![','];
    let close = seq![')'];
    assert(is_ascii_chars(head));
    assert(is_ascii_chars(comma));
    assert(is_ascii_chars(close));
    lemma_channel_is_ascii(r, color.r);
    lemma_channel_is_ascii(g, color.g);
    lemma_channel_is_ascii(b, color.b);
    let t1 = head + r.text();
    let t2 = t1 + comma;
    let t3 = t2 + g.text();
    let t4 = t3 + comma;
    let t5 = t4 + b.text();
    vstd::utf8::is_ascii_chars_concat(t1, head, r.text());
    vstd::utf8::is_ascii_chars_concat(t2, t1, comma);
    vstd::utf8::is_ascii_chars_concat(t3, t2, g.text());
    vstd::utf8::is_ascii_chars_concat(t4, t3, comma);
    vstd::utf8::is_ascii_chars_concat(t5, t4, b.text());
    assert(t1[0] == 'r' && t1[1] == 'g' && t1[2] == 'b' && t1[3] == '(');
    match a {
        Some(a) => {
            lemma_channel_is_ascii(a, color.a);
            let t6 = t5 + comma;
            let t7 = t6 + a.text();
            let t8 = t7 + close;
            vstd::utf8::is_ascii_chars_concat(t6, t5, comma);
            vstd::utf8::is_ascii_chars_concat(t7, t6, a.text());
            vstd::utf8::is_ascii_chars_concat(t8, t7, close);
            assert(t8[0] == t1[0] && t8[1] == t1[1] && t8[2] == t1[2] && t8[3] == t1[3]);
        },
        None => {
            let t6 = t5 + close;
            vstd::utf8::is_ascii_chars_concat(t6, t5, close);
            assert(t6[0] == t1[0] && t6[1] == t1[1] && t6[2] == t1[2] && t6[3] == t1[3]);
        },
    }
}

/// A token of a color is read as that color.
proof fn lemma_token_is_read(r: Channel, g: Channel, b: Channel, a: Option<Channel>, color: Rgba)
    requires
        is_numeral(r.digits, color.r),
        is_numeral(g.digits, color.g),
        is_numeral(b.digits, color.b),
        match a {
            Some(a) => is_numeral(a.digits, color.a),
            None => color.a == 255,
        },
    ensures
        color_of(token(r, g, b, a)) == Some(color),
{
    let text = token(r, g, b, a);
    let head = seq!['r', 'g', 'b', '('];
    let comma = seq![','];
    let close = seq![')'];
    let i = 4 + r.text().len() as int;
    let j = i + 1 + g.text().len();
    let k = j + 1 + b.text().len();
    let rest = match a {
        Some(a) => comma + a.text() + close,
        None => close,
    };
    lemma_token_is_ascii(r, g, b, a, color);
    assert(channel_at(text, 4) == Some((color.r, i)) && holds(text, i, ',')) by {
        let post = g.text() + comma + b.text() + rest;
        assert(text =~= head + r.text() + comma + post);
        lemma_channel_between(head, r, color.r, ',', post);
    }
    assert(channel_at(text, i + 1) == Some((color.g, j)) && holds(text, j, ',')) by {
        let pre = head + r.text() + comma;
        let post = b.text() + rest;
        assert(text =~= pre + g.text() + comma + post);
        lemma_channel_between(pre, g, color.g, ',', post);
    }
    match a {
        Some(a) => {
            let m = k + 1 + a.text().len();
            assert(channel_at(text, j + 1) == Some((color.b, k)) && holds(text, k, ',')) by {
                let pre = head + r.text() + comma + g.text() + comma;
                let post = a.text() + close;
                assert(text =~= pre + b.text() + comma + post);
                lemma_channel_between(pre, b, color.b, ',', post);
            }
            assert(channel_at(text, k + 1) == Some((color.a, m)) && closes(text, m)) by {
                let pre = head + r.text() + comma + g.text() + comma + b.text() + comma;
                assert(text =~= pre + a.text() + close + Seq::empty());
                lemma_channel_between(pre, a, color.a, ')', Seq::empty());
            }
            assert(!closes(text, k));
        },
        None => {
            assert(channel_at(text, j + 1) == Some((color.b, k)) && closes(text, k)) by {
                let pre = head + r.text() + comma + g.text() + comma;
                assert(text =~= pre + b.text() + close + Seq::empty());
                lemma_channel_between(pre, b, color.b, ')', Seq::empty());
            }
        },
    }
}

/// A text that is read as a color is a token of that color.
proof fn lemma_read_text_is_token(text: Seq<char>, color: Rgba)
    requires
        color_of(text) == Some(color),
    ensures
        spells(text, color),
{
    let head = seq!['r', 'g', 'b', '('];
    let comma = seq![','];
    let close = seq![')'];
    assert(text.subrange(0, 4) =~= head);
    let (red, i) = channel_at(text, 4).unwrap();
    let r = lemma_read_channel_is_written(text, 4, red, i);
    let (green, j) = channel_at(text, i + 1).unwrap();
    let g = lemma_read_channel_is_written(text, i + 1, green, j);
    let (blue, k) = channel_at(text, j + 1).unwrap();
    let b = lemma_read_channel_is_written(text, j + 1, blue, k);
    assert(text.subrange(i, i + 1) =~= comma);
    assert(text.subrange(j, j + 1) =~= comma);
    if closes(text, k) {
        assert(text.subrange(k, k + 1) =~= close);
        assert(text =~= text.subrange(0, 4) + text.subrange(4, i) + text.subrange(i, i + 1)
            + text.subrange(i + 1, j) + text.subrange(j, j + 1) + text.subrange(j + 1, k)
            + text.subrange(k, k + 1));
        assert(text == token(r, g, b, None));
    } else {
        let (alpha, m) = channel_at(text, k + 1).unwrap();
        let a = lemma_read_channel_is_written(text, k + 1, alpha, m);
        assert(text.subrange(k, k + 1) =~= comma);
        assert(text.subrange(m, m + 1) =~= close);
        assert(text =~= text.subrange(0, 4) + text.subrange(4, i) + text.subrange(i, i + 1)
            + text.subrange(i + 1, j) + text.subrange(j, j + 1) + text.subrange(j + 1, k)
            + text.subrange(k, k + 1) + text.subrange(k + 1, m) + text.subrange(m, m + 1));
        assert(text == token(r, g, b, Some(a)));
    }
}

/// Reading finds the tokens and nothing else: a text is read as a color
/// where, and only where, it is a token of that color. So a text is a token
/// of one color at most.
pub proof fn lemma_color_of_reads_tokens(text: Seq<char>, color: Rgba)
    ensures
        color_of(text) == Some(color) <==> spells(text, color),
{
    if color_of(text) == Some(color) {
        lemma_read_text_is_token(text, color);
    }
    if spells(text, color) {
        let (r, g, b, a) = choose|r: Channel, g: Channel, b: Channel, a: Option<Channel>|
            {
                &&& text == #[trigger] token(r, g, b, a)
                &&& is_numeral(r.digits, color.r)
                &&& is_numeral(g.digits, color.g)
                &&& is_numeral(b.digits, color.b)
                &&& match a {
                    Some(a) => is_numeral(a.digits, color.a),
                    None => color.a == 255,
                }
            };
        lemma_token_is_read(r, g, b, a, color);
    }
}

/// The digits in which a number is written are a numeral of it.
proof fn lemma_digits_are_a_numeral(n: u8)
    ensures
        is_numeral(digits_of(n), n),
{
    reveal(digits_of);
    reveal_with_fuel(decimal, 5);
    let written = digits_of(n);
    if n >= 100 {
        assert(written.drop_last() =~= seq![written[0], written[1]]);
        assert(written.drop_last().drop_last() =~= seq![written[0]]);
    } else if n >= 10 {
        assert(written.drop_last() =~= seq![written[0]]);
    }
}

/// The canonical token of a color is a token of that color, and is read as
/// that color.
pub proof fn lemma_canonical_spells_color(color: Rgba)
    ensures
        spells(canonical(color), color),
        color_of(canonical(color)) == Some(color),
{
    let bare = |n: u8| Channel { lead: 0, digits: digits_of(n), trail: 0 };
    let r = bare(color.r);
    let g = bare(color.g);
    let b = bare(color.b);
    let a = bare(color.a);
    lemma_digits_are_a_numeral(color.r);
    lemma_digits_are_a_numeral(color.g);
    lemma_digits_are_a_numeral(color.b);
    lemma_digits_are_a_numeral(color.a);
    assert(r.text() =~= digits_of(color.r));
    assert(g.text() =~= digits_of(color.g));
    assert(b.text() =~= digits_of(color.b));
    assert(a.text() =~= digits_of(color.a));
    assert(canonical(color) == token(r, g, b, Some(a)));
    lemma_color_of_reads_tokens(canonical(color), color);
}

} // verus!
