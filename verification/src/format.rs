//! Payload and notification formatting.
//!
//! Raw payload bytes are turned into display strings in one of several
//! encodings: hexadecimal, plain text with non-printable characters
//! escaped, base64, or fully escaped ASCII; `Auto` picks between text and
//! escape depending on whether every byte is printable.

use vstd::prelude::*;

use colored::Colorize;

verus! {

use vstd::string::{StrSliceExecFns, StringExecFns};
use vstd::utf8::{decode_utf8, valid_utf8};

use crate::notification::{Notification, Publish};

/// The encoding a payload is displayed in.
#[derive(Copy, Clone, PartialEq, Eq, Structural, Debug)]
pub enum PayloadFormat {
    Auto,
    Text,
    Hex,
    Base64,
    Escape,
}

/// Options for rendering a message.
#[derive(Copy, Clone)]
pub struct MessageFormat {
    pub payload_format: PayloadFormat,
}

impl MessageFormat {
    /// Plain text display.
    pub fn default() -> (r: Self)
        ensures
            r.payload_format == PayloadFormat::Text,
    {
        MessageFormat { payload_format: PayloadFormat::Text }
    }
}

// ---------------------------------------------------------------------
// Hexadecimal encoding.
// ---------------------------------------------------------------------

/// The lowercase hexadecimal digit of a value below sixteen.
pub open spec fn hex_digit(v: int) -> char
    recommends
        0 <= v < 16,
{
    if v < 10 {
        ((48 + v) as u32) as char
    } else {
        ((87 + v) as u32) as char
    }
}

/// Two lowercase hexadecimal digits per byte, in order.
pub open spec fn hex_chars(bs: Seq<u8>) -> Seq<char> {
    Seq::new(
        bs.len() * 2,
        |i: int|
            if i % 2 == 0 {
                hex_digit((bs[i / 2] as int) / 16)
            } else {
                hex_digit((bs[i / 2] as int) % 16)
            },
    )
}

/// Hexadecimal output is printable ASCII.
proof fn lemma_hex_chars_printable(bs: Seq<u8>)
    ensures
        forall|i: int|
            0 <= i < hex_chars(bs).len() ==> printable_char(#[trigger] hex_chars(bs)[i]),
{
    assert forall|i: int| 0 <= i < hex_chars(bs).len() implies printable_char(
        #[trigger] hex_chars(bs)[i],
    ) by {
        let b = bs[i / 2] as int;
        assert(0 <= b / 16 < 16);
        assert(0 <= b % 16 < 16);
    }
}

/// Relies on `hex::encode`: two lowercase hexadecimal digits for each byte.
#[verifier::external_body]
pub fn format_payload_hex(payload: &[u8]) -> (r: String)
    ensures
        r@ == hex_chars(payload@),
{
    hex::encode(payload)
}

// ---------------------------------------------------------------------
// Base64 encoding.
// ---------------------------------------------------------------------

/// The standard base64 alphabet character of a value below sixty-four.
pub open spec fn base64_digit(v: int) -> char
    recommends
        0 <= v < 64,
{
    if v < 26 {
        ((65 + v) as u32) as char
    } else if v < 52 {
        ((97 + v - 26) as u32) as char
    } else if v < 62 {
        ((48 + v - 52) as u32) as char
    } else if v == 62 {
        '+'
    } else {
        '/'
    }
}

/// Standard base64 with padding: four characters for every group of up to
/// three bytes.
pub open spec fn base64_chars(bs: Seq<u8>) -> Seq<char>
    decreases bs.len(),
{
    if bs.len() == 0 {
        Seq::empty()
    } else if bs.len() == 1 {
        let b0 = bs[0] as int;
        seq![base64_digit(b0 / 4), base64_digit((b0 % 4) * 16), '=', '=']
    } else if bs.len() == 2 {
        let b0 = bs[0] as int;
        let b1 = bs[1] as int;
        seq![
            base64_digit(b0 / 4),
            base64_digit((b0 % 4) * 16 + b1 / 16),
            base64_digit((b1 % 16) * 4),
            '=',
        ]
    } else {
        let b0 = bs[0] as int;
        let b1 = bs[1] as int;
        let b2 = bs[2] as int;
        seq![
            base64_digit(b0 / 4),
            base64_digit((b0 % 4) * 16 + b1 / 16),
            base64_digit((b1 % 16) * 4 + b2 / 64),
            base64_digit(b2 % 64),
        ] + base64_chars(bs.skip(3))
    }
}

/// Relies on `base64::encode`: the standard alphabet, with `=` padding.
#[verifier::external_body]
pub fn format_payload_base64(payload: &[u8]) -> (r: String)
    ensures
        r@ == base64_chars(payload@),
{
    base64::encode(payload)
}

// ---------------------------------------------------------------------
// Text decoding and character escapes.
// ---------------------------------------------------------------------

/// Relies on `String::from_utf8`: succeeds exactly on valid UTF-8 and
/// decodes the bytes to their characters.
#[verifier::external_body]
fn decode_utf8_bytes(payload: &[u8]) -> (r: Option<String>)
    ensures
        match r {
            Some(s) => valid_utf8(payload@) && s@ == decode_utf8(payload@),
            None => !valid_utf8(payload@),
        },
{
    match String::from_utf8(payload.to_vec()) {
        Ok(s) => Some(s),
        Err(_) => None,
    }
}

/// What `char::escape_debug` prints for a character; a function of the
/// character alone.
pub uninterp spec fn escape_debug_of(c: char) -> Seq<char>;

/// Relies on `char::escape_debug`, rendered via `ToString`: the escaped
/// form of one character.
#[verifier::external_body]
fn escape_debug_char(c: char) -> (r: String)
    ensures
        r@ == escape_debug_of(c),
{
    c.escape_debug().to_string()
}

/// What `char::escape_default` prints for a character; a function of the
/// character alone.
pub uninterp spec fn escape_default_of(c: char) -> Seq<char>;

/// Relies on `char::escape_default`, rendered via `ToString`: the escaped
/// form of one character, which is made of printable ASCII characters
/// alone.
#[verifier::external_body]
fn escape_default_char(c: char) -> (r: String)
    ensures
        r@ == escape_default_of(c),
        forall|i: int| 0 <= i < r@.len() ==> printable_char(#[trigger] r@[i]),
{
    c.escape_default().to_string()
}

use crate::topic::chars_to_string;

/// The characters of a string slice, in order.
fn str_chars(s: &str) -> (r: Vec<char>)
    ensures
        r@ == s@,
{
    let n = s.unicode_len();
    let mut r: Vec<char> = Vec::new();
    let mut i: usize = 0;
    while i < n
        invariant
            i <= n,
            n == s@.len(),
            r@ == s@.take(i as int),
        decreases n - i,
    {
        r.push(s.get_char(i));
        proof {
            assert(r@ =~= s@.take(i as int + 1));
        }
        i = i + 1;
    }
    proof {
        assert(s@.take(n as int) =~= s@);
    }
    r
}

/// A byte that prints as itself: space through tilde.
pub open spec fn printable_byte(b: u8) -> bool {
    32 <= b <= 126
}

/// A character that prints as itself: space through tilde.
pub open spec fn printable_char(c: char) -> bool {
    32 <= (c as u32) <= 126
}

/// A printable character stands for itself; the null character is written
/// out as `\u{0}`; any other is escaped.
pub open spec fn escape_piece(c: char) -> Seq<char> {
    if printable_char(c) {
        seq![c]
    } else if c == '\0' {
        "\\u{0}"@
    } else {
        escape_debug_of(c)
    }
}

/// A string with every non-printable character escaped.
pub open spec fn escape_non_printable(s: Seq<char>) -> Seq<char>
    decreases s.len(),
{
    if s.len() == 0 {
        Seq::empty()
    } else {
        escape_piece(s[0]) + escape_non_printable(s.skip(1))
    }
}

proof fn lemma_escape_non_printable_snoc(s: Seq<char>, i: int)
    requires
        0 <= i < s.len(),
    ensures
        escape_non_printable(s.take(i + 1)) == escape_non_printable(s.take(i)) + escape_piece(
            s[i],
        ),
    decreases i,
{
    if i == 0 {
        let t = s.take(1);
        assert(t.len() == 1 && t[0] == s[0]);
        assert(t.skip(1) =~= Seq::<char>::empty());
        assert(escape_non_printable(Seq::<char>::empty()) == Seq::<char>::empty());
        assert(escape_non_printable(t) == escape_piece(s[0]) + Seq::<char>::empty());
        assert(escape_piece(s[0]) + Seq::<char>::empty() =~= escape_piece(s[0]));
        assert(s.take(0) =~= Seq::<char>::empty());
        assert(Seq::<char>::empty() + escape_piece(s[0]) =~= escape_piece(s[0]));
    } else {
        let d = s.skip(1);
        lemma_escape_non_printable_snoc(d, i - 1);
        assert(s.take(i + 1).skip(1) =~= d.take(i));
        assert(s.take(i).skip(1) =~= d.take(i - 1));
        assert(s.take(i + 1)[0] == s[0]);
        assert(s.take(i)[0] == s[0]);
        assert(d[i - 1] == s[i]);
        assert(escape_non_printable(s.take(i + 1)) == escape_piece(s[0]) + (escape_non_printable(
            d.take(i - 1),
        ) + escape_piece(s[i])));
        assert(escape_piece(s[0]) + (escape_non_printable(d.take(i - 1)) + escape_piece(s[i]))
            =~= (escape_piece(s[0]) + escape_non_printable(d.take(i - 1))) + escape_piece(s[i]));
    }
}

/// A string with every character escaped.
pub open spec fn escape_all(s: Seq<char>) -> Seq<char>
    decreases s.len(),
{
    if s.len() == 0 {
        Seq::empty()
    } else {
        escape_default_of(s[0]) + escape_all(s.skip(1))
    }
}

proof fn lemma_escape_all_snoc(s: Seq<char>, i: int)
    requires
        0 <= i < s.len(),
    ensures
        escape_all(s.take(i + 1)) == escape_all(s.take(i)) + escape_default_of(s[i]),
    decreases i,
{
    if i == 0 {
        let t = s.take(1);
        assert(t.len() == 1 && t[0] == s[0]);
        assert(t.skip(1) =~= Seq::<char>::empty());
        assert(escape_all(Seq::<char>::empty()) == Seq::<char>::empty());
        assert(escape_all(t) == escape_default_of(s[0]) + Seq::<char>::empty());
        assert(escape_default_of(s[0]) + Seq::<char>::empty() =~= escape_default_of(s[0]));
        assert(s.take(0) =~= Seq::<char>::empty());
        assert(Seq::<char>::empty() + escape_default_of(s[0]) =~= escape_default_of(s[0]));
    } else {
        let d = s.skip(1);
        lemma_escape_all_snoc(d, i - 1);
        assert(s.take(i + 1).skip(1) =~= d.take(i));
        assert(s.take(i).skip(1) =~= d.take(i - 1));
        assert(d[i - 1] == s[i]);
        assert(escape_all(s.take(i + 1)) == escape_default_of(s[0]) + (escape_all(d.take(i - 1))
            + escape_default_of(s[i])));
        assert(escape_default_of(s[0]) + (escape_all(d.take(i - 1)) + escape_default_of(s[i]))
            =~= (escape_default_of(s[0]) + escape_all(d.take(i - 1))) + escape_default_of(s[i]));
    }
}

/// Escape only the characters outside the printable range, keeping the
/// rest as they are.
pub fn escape_only_non_printable(text: String) -> (r: String)
    ensures
        r@ == escape_non_printable(text@),
{
    let cs = str_chars(text.as_str());
    let mut out: Vec<char> = Vec::new();
    let mut i: usize = 0;
    while i < cs.len()
        invariant
            i <= cs@.len(),
            cs@ == text@,
            out@ == escape_non_printable(text@.take(i as int)),
        decreases cs@.len() - i,
    {
        let c = cs[i];
        let ghost pre = out@;
        if 32 <= (c as u32) && (c as u32) <= 126 {
            out.push(c);
            proof {
                assert(out@ =~= pre + escape_piece(c));
            }
        } else if c == '\0' {
            let e = String::from_str("\\u{0}");
            let mut ecs = str_chars(e.as_str());
            out.append(&mut ecs);
            proof {
                assert(out@ =~= pre + escape_piece(c));
            }
        } else {
            let e = escape_debug_char(c);
            let mut ecs = str_chars(e.as_str());
            out.append(&mut ecs);
            proof {
                assert(out@ =~= pre + escape_piece(c));
            }
        }
        proof {
            lemma_escape_non_printable_snoc(text@, i as int);
        }
        i = i + 1;
    }
    proof {
        assert(text@.take(text@.len() as int) =~= text@);
    }
    chars_to_string(&out)
}

// ---------------------------------------------------------------------
// The format dispatch.
// ---------------------------------------------------------------------

/// What the text format yields: the decoded characters with non-printable
/// ones escaped, or a hexadecimal fallback on malformed bytes.
pub open spec fn spec_format_payload_text(bs: Seq<u8>) -> (PayloadFormat, Seq<char>) {
    if valid_utf8(bs) {
        (PayloadFormat::Text, escape_non_printable(decode_utf8(bs)))
    } else {
        (PayloadFormat::Hex, hex_chars(bs))
    }
}

/// Display the payload as text; on malformed bytes fall back to
/// hexadecimal.
pub fn format_payload_text(payload: &[u8]) -> (r: (PayloadFormat, String))
    ensures
        r.0 == spec_format_payload_text(payload@).0,
        r.1@ == spec_format_payload_text(payload@).1,
{
    match decode_utf8_bytes(payload) {
        Some(text) => (PayloadFormat::Text, escape_only_non_printable(text)),
        None => (PayloadFormat::Hex, format_payload_hex(payload)),
    }
}

/// What the escape format yields: every decoded character escaped, or a
/// hexadecimal fallback on malformed bytes.
pub open spec fn spec_format_payload_ascii(bs: Seq<u8>) -> (PayloadFormat, Seq<char>) {
    if valid_utf8(bs) {
        (PayloadFormat::Escape, escape_all(decode_utf8(bs)))
    } else {
        (PayloadFormat::Hex, hex_chars(bs))
    }
}

/// Display the payload with every character escaped; on malformed bytes
/// fall back to hexadecimal.  Either way the display is printable ASCII.
pub fn format_payload_ascii(payload: &[u8]) -> (r: (PayloadFormat, String))
    ensures
        r.0 == spec_format_payload_ascii(payload@).0,
        r.1@ == spec_format_payload_ascii(payload@).1,
        forall|i: int| 0 <= i < r.1@.len() ==> printable_char(#[trigger] r.1@[i]),
{
    match decode_utf8_bytes(payload) {
        Some(text) => {
            let cs = str_chars(text.as_str());
            let mut out: Vec<char> = Vec::new();
            let mut i: usize = 0;
            while i < cs.len()
                invariant
                    i <= cs@.len(),
                    cs@ == text@,
                    out@ == escape_all(text@.take(i as int)),
                    forall|k: int| 0 <= k < out@.len() ==> printable_char(#[trigger] out@[k]),
                decreases cs@.len() - i,
            {
                let e = escape_default_char(cs[i]);
                let mut ecs = str_chars(e.as_str());
                let ghost pre = out@;
                out.append(&mut ecs);
                proof {
                    lemma_escape_all_snoc(text@, i as int);
                }
                i = i + 1;
            }
            proof {
                assert(text@.take(text@.len() as int) =~= text@);
            }
            (PayloadFormat::Escape, chars_to_string(&out))
        },
        None => {
            proof {
                lemma_hex_chars_printable(payload@);
            }
            (PayloadFormat::Hex, format_payload_hex(payload))
        },
    }
}

/// Every byte prints as itself.
pub open spec fn all_printable(bs: Seq<u8>) -> bool {
    forall|i: int| 0 <= i < bs.len() ==> printable_byte(bs[i])
}

/// Whether every byte of the payload is printable.
pub fn is_printable(payload: &[u8]) -> (r: bool)
    ensures
        r == all_printable(payload@),
{
    let mut i: usize = 0;
    while i < payload.len()
        invariant
            i <= payload@.len(),
            forall|j: int| 0 <= j < i ==> printable_byte(payload@[j]),
        decreases payload@.len() - i,
    {
        let b = payload[i];
        if b < 32 || b > 126 {
            return false;
        }
        i = i + 1;
    }
    true
}

/// Pick text for fully printable payloads, escape otherwise.
pub fn guess_format(payload: &[u8]) -> (r: PayloadFormat)
    ensures
        r == if all_printable(payload@) {
            PayloadFormat::Text
        } else {
            PayloadFormat::Escape
        },
{
    if is_printable(payload) {
        return PayloadFormat::Text;
    }
    PayloadFormat::Escape
}

/// What each format yields; `Auto` resolves by printability, and the
/// resolved format is returned alongside the text.
pub open spec fn spec_format_payload(format: PayloadFormat, bs: Seq<u8>) -> (
    PayloadFormat,
    Seq<char>,
) {
    match format {
        PayloadFormat::Hex => (PayloadFormat::Hex, hex_chars(bs)),
        PayloadFormat::Text => spec_format_payload_text(bs),
        PayloadFormat::Base64 => (PayloadFormat::Base64, base64_chars(bs)),
        PayloadFormat::Escape => spec_format_payload_ascii(bs),
        PayloadFormat::Auto => if all_printable(bs) {
            spec_format_payload_text(bs)
        } else {
            spec_format_payload_ascii(bs)
        },
    }
}

/// Render the payload in the requested format; the returned format is the
/// one actually used, and is never `Auto`.
pub fn format_payload(format: PayloadFormat, payload: &[u8]) -> (r: (PayloadFormat, String))
    ensures
        r.0 == spec_format_payload(format, payload@).0,
        r.1@ == spec_format_payload(format, payload@).1,
        r.0 != PayloadFormat::Auto,
{
    match format {
        PayloadFormat::Hex => (format, format_payload_hex(payload)),
        PayloadFormat::Text => format_payload_text(payload),
        PayloadFormat::Base64 => (format, format_payload_base64(payload)),
        PayloadFormat::Escape => format_payload_ascii(payload),
        PayloadFormat::Auto => {
            let actual_format = guess_format(payload);
            if matches!(actual_format, PayloadFormat::Text) {
                format_payload_text(payload)
            } else {
                format_payload_ascii(payload)
            }
        },
    }
}

/// What the display name of a resolved format is.
pub open spec fn spec_format_name(format: PayloadFormat) -> Seq<char> {
    match format {
        PayloadFormat::Hex => "HEX"@,
        PayloadFormat::Text => "TXT"@,
        PayloadFormat::Base64 => "B64"@,
        PayloadFormat::Escape => "ESC"@,
        PayloadFormat::Auto => Seq::empty(),
    }
}

impl PayloadFormat {
    /// Parse a format selector, case-insensitively.  On ASCII input the
    /// case folding is pinned: it is the A-to-Z to a-to-z substitution.
    pub fn from_str(s: &str) -> (r: Result<PayloadFormat, ()>)
        ensures
            all_ascii(s@) ==> lower_of(s@) == ascii_lower_seq(s@),
            ({
                let l = lower_of(s@);
                r == if l == "hex"@ {
                    Ok::<PayloadFormat, ()>(PayloadFormat::Hex)
                } else if l == "text"@ || l == "txt"@ {
                    Ok::<PayloadFormat, ()>(PayloadFormat::Text)
                } else if l == "base64"@ || l == "b64"@ {
                    Ok::<PayloadFormat, ()>(PayloadFormat::Base64)
                } else if l == "escape"@ || l == "esc"@ {
                    Ok::<PayloadFormat, ()>(PayloadFormat::Escape)
                } else if l == "auto"@ {
                    Ok::<PayloadFormat, ()>(PayloadFormat::Auto)
                } else {
                    Err::<PayloadFormat, ()>(())
                }
            }),
    {
        let low = to_lowercase_str(s);
        if crate::topic::topic_eq(low.as_str(), "hex") {
            Ok(PayloadFormat::Hex)
        } else if crate::topic::topic_eq(low.as_str(), "text") || crate::topic::topic_eq(
            low.as_str(),
            "txt",
        ) {
            Ok(PayloadFormat::Text)
        } else if crate::topic::topic_eq(low.as_str(), "base64") || crate::topic::topic_eq(
            low.as_str(),
            "b64",
        ) {
            Ok(PayloadFormat::Base64)
        } else if crate::topic::topic_eq(low.as_str(), "escape") || crate::topic::topic_eq(
            low.as_str(),
            "esc",
        ) {
            Ok(PayloadFormat::Escape)
        } else if crate::topic::topic_eq(low.as_str(), "auto") {
            Ok(PayloadFormat::Auto)
        } else {
            Err(())
        }
    }

    /// The three-letter display name of a resolved format.
    pub fn to_string(&self) -> (r: String)
        requires
            *self != PayloadFormat::Auto,
        ensures
            r@ == spec_format_name(*self),
    {
        match self {
            PayloadFormat::Hex => String::from_str("HEX"),
            PayloadFormat::Text => String::from_str("TXT"),
            PayloadFormat::Base64 => String::from_str("B64"),
            PayloadFormat::Escape => String::from_str("ESC"),
            PayloadFormat::Auto => {
                proof {
                    assert(false);
                }
                String::new()
            },
        }
    }
}

/// What `str::to_lowercase` returns; a function of the characters alone.
pub uninterp spec fn lower_of(s: Seq<char>) -> Seq<char>;

/// The ASCII lowercase counterpart of a character.
pub open spec fn ascii_lower(c: char) -> char {
    if 65 <= (c as u32) <= 90 {
        (((c as u32) + 32) as u32) as char
    } else {
        c
    }
}

/// Every character is ASCII.
pub open spec fn all_ascii(s: Seq<char>) -> bool {
    forall|i: int| 0 <= i < s.len() ==> (s[i] as u32) < 128
}

/// The ASCII-lowercase substitution applied to every character.
pub open spec fn ascii_lower_seq(s: Seq<char>) -> Seq<char> {
    s.map(|i: int, c: char| ascii_lower(c))
}

/// Relies on `str::to_lowercase`: the Unicode lowercase mapping, which on
/// ASCII letters is exactly the A-to-Z to a-to-z substitution.
#[verifier::external_body]
fn to_lowercase_str(s: &str) -> (r: String)
    ensures
        r@ == lower_of(s@),
        all_ascii(s@) ==> r@ == ascii_lower_seq(s@),
{
    s.to_lowercase()
}

// ---------------------------------------------------------------------
// Styled tokens and message rendering.
// ---------------------------------------------------------------------

/// A slot of the display palette.
#[derive(Copy, Clone, PartialEq, Eq, Structural, Debug)]
pub enum Color {
    Background,
    OnBackground,
    Primary,
    OnPrimary,
    Secondary,
    OnSecondary,
    Error,
    OnError,
}

/// What terminal color a palette slot maps to.
pub open spec fn spec_color_name(c: Color) -> Seq<char> {
    match c {
        Color::Background => "black"@,
        Color::OnBackground => "white"@,
        Color::Primary => "blue"@,
        Color::OnPrimary => "black"@,
        Color::Secondary => "yellow"@,
        Color::OnSecondary => "black"@,
        Color::Error => "red"@,
        Color::OnError => "white"@,
    }
}

impl Color {
    /// The terminal color a palette slot maps to, by name.
    pub fn name(&self) -> (r: String)
        ensures
            r@ == spec_color_name(*self),
    {
        match self {
            Color::Background => String::from_str("black"),
            Color::OnBackground => String::from_str("white"),
            Color::Primary => String::from_str("blue"),
            Color::OnPrimary => String::from_str("black"),
            Color::Secondary => String::from_str("yellow"),
            Color::OnSecondary => String::from_str("black"),
            Color::Error => String::from_str("red"),
            Color::OnError => String::from_str("white"),
        }
    }
}

/// Foreground and background of one displayed token.
#[derive(Copy, Clone, PartialEq, Eq, Structural, Debug)]
pub struct TokenStyle {
    pub color: Color,
    pub background: Color,
}

/// The style topics are shown in.
pub fn topic_style() -> (r: TokenStyle)
    ensures
        r == (TokenStyle { color: Color::OnPrimary, background: Color::Primary }),
{
    TokenStyle { color: Color::OnPrimary, background: Color::Primary }
}

/// The style payloads are shown in.
pub fn payload_style() -> (r: TokenStyle)
    ensures
        r == (TokenStyle { color: Color::OnBackground, background: Color::Background }),
{
    TokenStyle { color: Color::OnBackground, background: Color::Background }
}

/// The style format tags are shown in.
pub fn format_style() -> (r: TokenStyle)
    ensures
        r == (TokenStyle { color: Color::OnSecondary, background: Color::Secondary }),
{
    TokenStyle { color: Color::OnSecondary, background: Color::Secondary }
}

/// The style lifecycle notifications are shown in.
pub fn notification_style() -> (r: TokenStyle)
    ensures
        r == (TokenStyle { color: Color::OnError, background: Color::Error }),
{
    TokenStyle { color: Color::OnError, background: Color::Error }
}

/// One styled piece of a rendered line.
pub struct FormattedToken {
    pub style: TokenStyle,
    pub content: String,
}

impl FormattedToken {
    /// A token of the given style and content.
    pub fn new(style: TokenStyle, content: String) -> (r: FormattedToken)
        ensures
            r.style == style,
            r.content@ == content@,
    {
        FormattedToken { style, content }
    }
}

/// A rendered line: styled tokens joined by single spaces.
pub struct FormattedString(pub Vec<FormattedToken>);

/// The pieces of a line joined by single spaces.
pub open spec fn join_spaced(ss: Seq<Seq<char>>) -> Seq<char>
    decreases ss.len(),
{
    if ss.len() == 0 {
        Seq::empty()
    } else if ss.len() == 1 {
        ss[0]
    } else {
        join_spaced(ss.drop_last()) + " "@ + ss.last()
    }
}

/// Join strings with single spaces between them.
fn join_with_spaces(parts: &Vec<String>) -> (r: String)
    ensures
        r@ == join_spaced(parts@.map(|i: int, s: String| s@)),
{
    let ghost views = parts@.map(|i: int, s: String| s@);
    let mut out = String::new();
    let mut i: usize = 0;
    while i < parts.len()
        invariant
            i <= parts@.len(),
            views == parts@.map(|i: int, s: String| s@),
            out@ == join_spaced(views.take(i as int)),
        decreases parts@.len() - i,
    {
        if i > 0 {
            out.append(" ");
        }
        out.append(parts[i].as_str());
        proof {
            let t = views.take(i as int + 1);
            assert(t.drop_last() =~= views.take(i as int));
            assert(t.last() == views[i as int]);
            if i == 0 {
                assert(out@ == join_spaced(views.take(0)) + " "@ + views[0] || out@ == views[0]);
                assert(out@ =~= views[0]);
            }
        }
        i = i + 1;
    }
    proof {
        assert(views.take(views.len() as int) =~= views);
    }
    out
}

impl FormattedString {
    /// The plain text of the line: token contents joined by spaces.
    pub fn to_string(&self) -> (r: String)
        ensures
            r@ == join_spaced(self.0@.map(|i: int, t: FormattedToken| t.content@)),
    {
        let mut parts: Vec<String> = Vec::new();
        let mut i: usize = 0;
        while i < self.0.len()
            invariant
                i <= self.0@.len(),
                parts@.len() == i,
                forall|j: int| 0 <= j < i ==> parts@[j]@ == self.0@[j].content@,
            decreases self.0@.len() - i,
        {
            parts.push(self.0[i].content.clone());
            i = i + 1;
        }
        let r = join_with_spaces(&parts);
        proof {
            assert(parts@.map(|i: int, s: String| s@) =~= self.0@.map(
                |i: int, t: FormattedToken| t.content@,
            ));
        }
        r
    }

    /// The line painted for a color terminal: each token's content colored
    /// with its style, joined by spaces.  What the painting adds around
    /// each token depends on the terminal environment; the text of every
    /// token that is free of the escape character still appears in the
    /// painted line.
    pub fn to_color_string(&self) -> (r: String)
        ensures
            forall|i: int|
                0 <= i < self.0@.len() && no_escape_char(#[trigger] self.0@[i].content@)
                    ==> contains_seq(r@, self.0@[i].content@),
    {
        let mut parts: Vec<String> = Vec::new();
        let mut i: usize = 0;
        while i < self.0.len()
            invariant
                i <= self.0@.len(),
                parts@.len() == i,
                forall|j: int|
                    0 <= j < i && no_escape_char(self.0@[j].content@) ==> contains_seq(
                        #[trigger] parts@[j]@,
                        self.0@[j].content@,
                    ),
            decreases self.0@.len() - i,
        {
            let tok = &self.0[i];
            let fg = tok.style.color.name();
            let bg = tok.style.background.name();
            parts.push(paint(tok.content.as_str(), fg.as_str(), bg.as_str()));
            i = i + 1;
        }
        let r = join_with_spaces(&parts);
        proof {
            let views = parts@.map(|i: int, s: String| s@);
            assert forall|i: int|
                0 <= i < self.0@.len() && no_escape_char(
                    #[trigger] self.0@[i].content@,
                ) implies contains_seq(r@, self.0@[i].content@) by {
                lemma_join_contains(views, i);
                lemma_contains_trans(r@, views[i], self.0@[i].content@);
            }
        }
        r
    }
}

/// Holds no terminal escape character.  Painting splices its style string
/// into the text after any escape sequence the text itself carries, so
/// only escape-free text is promised to survive painting contiguously.
pub open spec fn no_escape_char(s: Seq<char>) -> bool {
    forall|i: int| 0 <= i < s.len() ==> s[i] != '\u{1b}'
}

/// `needle` occurs contiguously somewhere in `hay`.
pub open spec fn contains_seq(hay: Seq<char>, needle: Seq<char>) -> bool {
    exists|k: int|
        0 <= k && k + needle.len() <= hay.len() && #[trigger] hay.subrange(k, k + needle.len())
            == needle
}

proof fn lemma_contains_trans(hay: Seq<char>, mid: Seq<char>, needle: Seq<char>)
    requires
        contains_seq(hay, mid),
        contains_seq(mid, needle),
    ensures
        contains_seq(hay, needle),
{
    let k1 = choose|k: int|
        0 <= k && k + mid.len() <= hay.len() && #[trigger] hay.subrange(k, k + mid.len()) == mid;
    let k2 = choose|k: int|
        0 <= k && k + needle.len() <= mid.len() && #[trigger] mid.subrange(k, k + needle.len())
            == needle;
    assert(hay.subrange(k1 + k2, k1 + k2 + needle.len()) =~= needle) by {
        assert(forall|m: int|
            0 <= m < mid.len() ==> mid[m] == #[trigger] hay.subrange(k1, k1 + mid.len())[m]);
        assert(forall|m: int|
            0 <= m < needle.len() ==> needle[m] == #[trigger] mid.subrange(
                k2,
                k2 + needle.len(),
            )[m]);
    }
}

/// Every piece of a spaced join appears contiguously in the join.
proof fn lemma_join_contains(parts: Seq<Seq<char>>, i: int)
    requires
        0 <= i < parts.len(),
    ensures
        contains_seq(join_spaced(parts), parts[i]),
    decreases parts.len(),
{
    let j = join_spaced(parts);
    if parts.len() == 1 {
        let k: int = 0;
        assert(j.subrange(k, k + parts[i].len()) =~= parts[i]);
    } else {
        let prefix = parts.drop_last();
        let jp = join_spaced(prefix);
        if i == parts.len() - 1 {
            let k = jp.len() as int + " "@.len() as int;
            assert(j.subrange(k, k + parts[i].len()) =~= parts[i]);
        } else {
            lemma_join_contains(prefix, i);
            let k = choose|k: int|
                0 <= k && k + prefix[i].len() <= jp.len() && #[trigger] jp.subrange(
                    k,
                    k + prefix[i].len(),
                ) == prefix[i];
            assert(j.subrange(k, k + parts[i].len()) =~= parts[i]) by {
                assert(forall|m: int|
                    0 <= m < prefix[i].len() ==> prefix[i][m] == #[trigger] jp.subrange(
                        k,
                        k + prefix[i].len(),
                    )[m]);
            }
        }
    }
}

/// Relies on `colored::Colorize` (`color`, `on_color`) and
/// `colored::Color::from<&str>`: paints a string for the terminal.  What
/// surrounds the text depends on the terminal environment, and text that
/// itself carries reset sequences has the style spliced into it; text free
/// of the escape character appears contiguously in every outcome.
#[verifier::external_body]
fn paint(content: &str, fg: &str, bg: &str) -> (r: String)
    ensures
        no_escape_char(content@) ==> contains_seq(r@, content@),
{
    let fg_color = colored::Color::from(fg);
    let bg_color = colored::Color::from(bg);
    format!("{}", Colorize::on_color(Colorize::color(content, fg_color), bg_color))
}

/// Render a published message: a format tag, the topic, and the payload in
/// the resolved format.
pub fn format_message(format: MessageFormat, msg: &Publish) -> (r: FormattedString)
    ensures
        ({
            let sp = spec_format_payload(format.payload_format, msg@.payload);
            &&& r.0@.len() == 3
            &&& r.0@[0].style == (TokenStyle { color: Color::OnSecondary, background: Color::Secondary })
            &&& r.0@[0].content@ == spec_format_name(sp.0)
            &&& r.0@[1].style == (TokenStyle { color: Color::OnPrimary, background: Color::Primary })
            &&& r.0@[1].content@ == msg@.topic
            &&& r.0@[2].style == (TokenStyle { color: Color::OnBackground, background: Color::Background })
            &&& r.0@[2].content@ == sp.1
        }),
{
    let (resolved, payload) = format_payload(format.payload_format, msg.payload.as_slice());
    let mut toks: Vec<FormattedToken> = Vec::new();
    toks.push(FormattedToken::new(format_style(), resolved.to_string()));
    toks.push(FormattedToken::new(topic_style(), msg.topic.clone()));
    toks.push(FormattedToken::new(payload_style(), payload));
    FormattedString(toks)
}

/// What a lifecycle notification is labelled.
pub open spec fn spec_notification_label(n: crate::notification::NotificationView) -> Seq<char> {
    match n {
        crate::notification::NotificationView::Publish(_) => "Publish"@,
        crate::notification::NotificationView::Disconnected => "Disconnected"@,
        crate::notification::NotificationView::Reconnected => "Reconnected"@,
        crate::notification::NotificationView::Lifecycle(d) => d,
    }
}

/// Render a notification other than a publish: a single labelled token.
pub fn format_generic_notification(notification: &Notification) -> (r: FormattedString)
    ensures
        r.0@.len() == 1,
        r.0@[0].style == (TokenStyle { color: Color::OnError, background: Color::Error }),
        r.0@[0].content@ == spec_notification_label(notification@),
{
    let label = match notification {
        Notification::Publish(_) => String::from_str("Publish"),
        Notification::Disconnected => String::from_str("Disconnected"),
        Notification::Reconnected => String::from_str("Reconnected"),
        Notification::Lifecycle(d) => d.clone(),
    };
    let mut toks: Vec<FormattedToken> = Vec::new();
    toks.push(FormattedToken::new(notification_style(), label));
    FormattedString(toks)
}

/// Render any notification: publishes as formatted messages, lifecycle
/// events as a single labelled token.
pub fn format_notification(format: MessageFormat, notification: &Notification) -> (r:
    FormattedString)
    ensures
        match notification@ {
            crate::notification::NotificationView::Publish(p) => {
                let sp = spec_format_payload(format.payload_format, p.payload);
                &&& r.0@.len() == 3
                &&& r.0@[0].style == (TokenStyle { color: Color::OnSecondary, background: Color::Secondary })
                &&& r.0@[0].content@ == spec_format_name(sp.0)
                &&& r.0@[1].style == (TokenStyle { color: Color::OnPrimary, background: Color::Primary })
                &&& r.0@[1].content@ == p.topic
                &&& r.0@[2].style == (TokenStyle { color: Color::OnBackground, background: Color::Background })
                &&& r.0@[2].content@ == sp.1
            },
            _ => {
                &&& r.0@.len() == 1
                &&& r.0@[0].style == (TokenStyle { color: Color::OnError, background: Color::Error })
                &&& r.0@[0].content@ == spec_notification_label(notification@)
            },
        },
{
    match notification {
        Notification::Publish(msg) => format_message(format, msg),
        _ => format_generic_notification(notification),
    }
}

} // verus!
