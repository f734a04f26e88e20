//! The records of an asciicast v2 recording: header, theme and events.
//!
//! Times and durations are held as whole microseconds.

use vstd::prelude::*;

use crate::text::{
    chars_of, is_digit, join_with, push_str, spec_join, spec_split, split_chars, strings_view,
    unsigned_digits,
};

verus! {

/// Errors of the asciicast model.
#[derive(Debug)]
pub enum AsciiCastError {
    Message(String),
}

/// Whether `c` is an ASCII hexadecimal digit.
pub open spec fn is_hex_digit(c: char) -> bool {
    is_digit(c) || ('a' <= c <= 'f') || ('A' <= c <= 'F')
}

/// A color of the form `#rrggbb`: seven characters, `#`, then what
/// `u32::from_str_radix(_, 16)` accepts (an optional `+` and hexadecimal
/// digits).
pub open spec fn spec_is_color(s: Seq<char>) -> bool {
    &&& s.len() == 7
    &&& s[0] == '#'
    &&& unsigned_digits(s.skip(1)).len() > 0
    &&& forall|i: int|
        0 <= i < unsigned_digits(s.skip(1)).len() ==> is_hex_digit(
            #[trigger] unsigned_digits(s.skip(1))[i],
        )
}

/// Number of palette colors that a theme keeps: 16 when there are at least
/// 16, otherwise 8.
pub open spec fn kept_colors(n: nat) -> nat {
    if n >= 16 { 16 } else { 8 }
}

/// What creating a theme gives: the foreground, background and palette it
/// keeps, or the message of the error.
pub open spec fn theme_outcome(fg: Seq<char>, bg: Seq<char>, palette: Seq<char>) -> Result<
    (Seq<char>, Seq<char>, Seq<char>),
    Seq<char>,
> {
    let parts = spec_split(palette, ':');
    let k = kept_colors(parts.len());
    if !spec_is_color(fg) {
        Err("Invalid foreground color: "@ + fg)
    } else if !spec_is_color(bg) {
        Err("Invalid background color: "@ + bg)
    } else if !(8 <= parts.len() <= 256) {
        Err("Invalid palette: expecting at least 8 colors"@)
    } else if exists|i: int| 0 <= i < k && !spec_is_color(#[trigger] parts[i]) {
        Err("Invalid palette: the first 8 or 16 colors must be valid"@)
    } else {
        Ok((fg, bg, spec_join(parts.take(k as int), ':')))
    }
}

/// Terminal theme of a recording.
#[derive(Debug, PartialEq)]
pub struct AsciiCastV2Theme {
    pub fg: String,
    pub bg: String,
    pub palette: String,
}

/// Header of a recording. `idle_time_limit` is in microseconds.
#[derive(Debug, PartialEq)]
pub struct AsciiCastV2Header {
    pub version: u8,
    pub width: u16,
    pub height: u16,
    pub theme: Option<AsciiCastV2Theme>,
    pub idle_time_limit: Option<u64>,
}

/// Event of a recording. `time` and `duration` are in microseconds.
#[derive(Debug, PartialEq)]
pub struct AsciiCastV2Event {
    pub time: u64,
    pub event_type: String,
    pub event_data: String,
    pub duration: Option<u64>,
}

/// One line of a recording.
#[derive(Debug, PartialEq)]
pub enum AsciiCastV2Record {
    Header(AsciiCastV2Header),
    Event(AsciiCastV2Event),
}

impl Clone for AsciiCastV2Theme {
    fn clone(&self) -> (r: Self)
        ensures
            r == *self,
    {
        AsciiCastV2Theme { fg: self.fg.clone(), bg: self.bg.clone(), palette: self.palette.clone() }
    }
}

impl Clone for AsciiCastV2Header {
    fn clone(&self) -> (r: Self)
        ensures
            r == *self,
    {
        let theme = match &self.theme {
            Some(t) => Some(t.clone()),
            None => None,
        };
        AsciiCastV2Header {
            version: self.version,
            width: self.width,
            height: self.height,
            theme,
            idle_time_limit: self.idle_time_limit,
        }
    }
}

impl Clone for AsciiCastV2Event {
    fn clone(&self) -> (r: Self)
        ensures
            r == *self,
    {
        AsciiCastV2Event {
            time: self.time,
            event_type: self.event_type.clone(),
            event_data: self.event_data.clone(),
            duration: self.duration,
        }
    }
}

impl Clone for AsciiCastV2Record {
    fn clone(&self) -> (r: Self)
        ensures
            r == *self,
    {
        match self {
            AsciiCastV2Record::Header(h) => AsciiCastV2Record::Header(h.clone()),
            AsciiCastV2Record::Event(e) => AsciiCastV2Record::Event(e.clone()),
        }
    }
}

/// A theme result as values.
pub open spec fn theme_result(r: Result<AsciiCastV2Theme, AsciiCastError>) -> Result<
    (Seq<char>, Seq<char>, Seq<char>),
    Seq<char>,
> {
    match r {
        Ok(t) => Ok((t.fg@, t.bg@, t.palette@)),
        Err(e) => Err(error_message(e)),
    }
}

/// The message of an error.
pub open spec fn error_message(e: AsciiCastError) -> Seq<char> {
    match e {
        AsciiCastError::Message(m) => m@,
    }
}

fn message(prefix: &str, detail: &str) -> (e: AsciiCastError)
    ensures
        error_message(e) == prefix@ + detail@,
{
    let mut m = String::new();
    push_str(&mut m, prefix);
    push_str(&mut m, detail);
    AsciiCastError::Message(m)
}

fn message_only(text: &str) -> (e: AsciiCastError)
    ensures
        error_message(e) == text@,
{
    AsciiCastError::Message(text.to_owned())
}

fn is_hex(c: char) -> (r: bool)
    ensures
        r == is_hex_digit(c),
{
    ('0' <= c && c <= '9') || ('a' <= c && c <= 'f') || ('A' <= c && c <= 'F')
}

impl AsciiCastV2Theme {
    /// Whether `value` is a color of the form `#rrggbb`.
    pub fn is_color(value: &str) -> (r: bool)
        ensures
            r == spec_is_color(value@),
    {
        let s = chars_of(value);
        if s.len() != 7 || s[0] != '#' {
            return false;
        }
        let start: usize = if s[1] == '+' { 2 } else { 1 };
        let ghost d = unsigned_digits(s@.skip(1));
        assert(d =~= s@.subrange(start as int, 7));
        if start >= 7 {
            return false;
        }
        let mut i: usize = start;
        while i < 7
            invariant
                start <= i <= 7,
                s@.len() == 7,
                d == s@.subrange(start as int, 7),
                d == unsigned_digits(value@.skip(1)),
                s@ == value@,
                forall|k: int| start <= k < i ==> is_hex_digit(#[trigger] s@[k]),
            decreases 7 - i,
        {
            if !is_hex(s[i]) {
                assert(d[i - start] == s@[i as int]);
                assert(!is_hex_digit(d[i - start]));
                assert(unsigned_digits(value@.skip(1)) == d);
                return false;
            }
            i = i + 1;
        }
        assert forall|k: int| 0 <= k < d.len() implies is_hex_digit(#[trigger] d[k]) by {
            assert(d[k] == s@[k + start]);
        }
        true
    }

    /// A theme with foreground `fg`, background `bg` and a palette of 8 to
    /// 256 colors separated by `:`, of which the first 16 (8 when there are
    /// fewer than 16) must be valid and are kept.
    pub fn new(fg: &str, bg: &str, palette: &str) -> (r: Result<Self, AsciiCastError>)
        ensures
            theme_result(r) == theme_outcome(fg@, bg@, palette@),
    {
        if !Self::is_color(fg) {
            return Err(message("Invalid foreground color: ", fg));
        }
        if !Self::is_color(bg) {
            return Err(message("Invalid background color: ", bg));
        }
        let parts = split_chars(&chars_of(palette), ':');
        let ghost pv = spec_split(palette@, ':');
        let n = parts.len();
        if !(8 <= n && n <= 256) {
            return Err(message_only("Invalid palette: expecting at least 8 colors"));
        }
        let k: usize = if n >= 16 { 16 } else { 8 };
        let mut i: usize = 0;
        while i < k
            invariant
                i <= k,
                k <= n,
                n == parts@.len(),
                pv == strings_view(parts@),
                pv == spec_split(palette@, ':'),
                spec_is_color(fg@),
                spec_is_color(bg@),
                8 <= n <= 256,
                k == kept_colors(n as nat),
                forall|j: int| 0 <= j < i ==> spec_is_color(#[trigger] pv[j]),
            decreases k - i,
        {
            if !Self::is_color(parts[i].as_str()) {
                assert(!spec_is_color(pv[i as int]));
                return Err(message_only("Invalid palette: the first 8 or 16 colors must be valid"));
            }
            i = i + 1;
        }
        Ok(AsciiCastV2Theme { fg: fg.to_owned(), bg: bg.to_owned(), palette: join_with(&parts, k, ':') })
    }
}

/// Whether `t` names an event type of asciicast v2: output (`o`) or input
/// (`i`).
pub open spec fn is_event_type(t: Seq<char>) -> bool {
    t == seq!['o'] || t == seq!['i']
}

/// The message of an error, if any.
pub open spec fn error_of<T>(r: Result<T, AsciiCastError>) -> Option<Seq<char>> {
    match r {
        Ok(_) => None,
        Err(e) => Some(error_message(e)),
    }
}

impl AsciiCastV2Header {
    /// A header; only version 2 is supported.
    pub fn new(
        version: u8,
        width: u16,
        height: u16,
        theme: Option<AsciiCastV2Theme>,
        idle_time_limit: Option<u64>,
    ) -> (r: Result<Self, AsciiCastError>)
        ensures
            version == 2 <==> r is Ok,
            r matches Ok(h) ==> h == (AsciiCastV2Header {
                version,
                width,
                height,
                theme,
                idle_time_limit,
            }),
            version != 2 ==> error_of(r) == Some("Only asciicast v2 format is supported"@),
    {
        if version != 2 {
            return Err(message_only("Only asciicast v2 format is supported"));
        }
        Ok(AsciiCastV2Header { version, width, height, theme, idle_time_limit })
    }
}

/// The error that the header fields of an asciicast v1 recording give, in
/// the order they are checked: whether all of `version`, `width`, `height`
/// and `stdout` are present, the version (it must be 1), and the width and
/// height (they must be unsigned integers).
pub open spec fn v1_header_error(
    has_all_keys: bool,
    version: Option<i64>,
    width: Option<u64>,
    height: Option<u64>,
) -> Option<Seq<char>> {
    if !has_all_keys {
        Some("Missing attributes in asciicast v1 file"@)
    } else if version != Some(1i64) {
        Some("This function can only decode asciicast v1 data"@)
    } else if width is None {
        Some("Invalid width"@)
    } else if height is None {
        Some("Invalid height"@)
    } else {
        None
    }
}

/// The version 2 header that the header fields of an asciicast v1
/// recording stand for: its width and height cut to 16 bits, no theme and
/// no idle time limit. `version`, `width` and `height` are the fields as
/// integers, where they are.
pub fn v1_header(has_all_keys: bool, version: Option<i64>, width: Option<u64>, height: Option<u64>) -> (r:
    Result<AsciiCastV2Header, AsciiCastError>)
    ensures
        error_of(r) == v1_header_error(has_all_keys, version, width, height),
        r matches Ok(h) ==> h == (AsciiCastV2Header {
            version: 2,
            width: width.unwrap() as u16,
            height: height.unwrap() as u16,
            theme: None,
            idle_time_limit: None,
        }),
{
    if !has_all_keys {
        return Err(message_only("Missing attributes in asciicast v1 file"));
    }
    if version != Some(1i64) {
        return Err(message_only("This function can only decode asciicast v1 data"));
    }
    let w: u16 = match width {
        Some(w) => w as u16,
        None => {
            return Err(message_only("Invalid width"));
        },
    };
    let h: u16 = match height {
        Some(h) => h as u16,
        None => {
            return Err(message_only("Invalid height"));
        },
    };
    AsciiCastV2Header::new(2, w, h, None, None)
}

impl AsciiCastV2Event {
    /// An event of type `o` (output) or `i` (input); `time` and `duration`
    /// are in microseconds.
    pub fn new(time: u64, event_type: &str, event_data: &str, duration: Option<u64>) -> (r:
        Result<Self, AsciiCastError>)
        ensures
            is_event_type(event_type@) <==> r is Ok,
            r matches Ok(e) ==> e.time == time && e.event_type@ == event_type@ && e.event_data@
                == event_data@ && e.duration == duration,
            !is_event_type(event_type@) ==> error_of(r) == Some(
                "Invalid event_type: "@ + event_type@,
            ),
    {
        let t = chars_of(event_type);
        if !(t.len() == 1 && (t[0] == 'o' || t[0] == 'i')) {
            proof {
                if is_event_type(event_type@) {
                    assert(t@.len() == 1 && t@[0] == event_type@[0]);
                }
            }
            return Err(message("Invalid event_type: ", event_type));
        }
        assert(is_event_type(event_type@)) by {
            if t[0] == 'o' {
                assert(event_type@ =~= seq!['o']);
            } else {
                assert(event_type@ =~= seq!['i']);
            }
        }
        Ok(AsciiCastV2Event {
            time,
            event_type: event_type.to_owned(),
            event_data: event_data.to_owned(),
            duration,
        })
    }
}

/// A palette of exactly 8 or 16 valid colors is kept as given, with the
/// valid foreground and background.
pub proof fn law_theme_keeps_full_palette(fg: Seq<char>, bg: Seq<char>, palette: Seq<char>)
    requires
        spec_is_color(fg),
        spec_is_color(bg),
        spec_split(palette, ':').len() == 8 || spec_split(palette, ':').len() == 16,
        forall|i: int| 0 <= i < spec_split(palette, ':').len() ==> spec_is_color(#[trigger] spec_split(palette, ':')[i]),
    ensures
        theme_outcome(fg, bg, palette) == Ok::<(Seq<char>, Seq<char>, Seq<char>), Seq<char>>((fg, bg, palette)),
{
    let parts = spec_split(palette, ':');
    assert(parts.take(parts.len() as int) =~= parts);
    crate::text::lemma_join_split(palette, ':');
}

} // verus!
