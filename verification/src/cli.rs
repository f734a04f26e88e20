//! The command line: its options, the validation of durations, and the
//! splitting of the command to record into words.

use vstd::prelude::*;

use crate::asciicast::{AsciiCastV2Event, AsciiCastV2Header, AsciiCastV2Record};
use crate::text::{
    chars_of, decimal, digits_value, is_digit, lemma_decimal_digits, lemma_parse_decimal,
    parse_unsigned, parse_unsigned_chars, strings_view,
};

verus! {

/// Delay in milliseconds before the animation starts over.
pub const DEFAULT_LOOP_DELAY: u64 = 1000;

/// The options of the program.
#[derive(Debug, PartialEq)]
pub struct Cli {
    pub command: Option<Commands>,
    pub command_to_record: String,
    pub loop_delay: u64,
    pub screen_geometry: Option<String>,
    pub min_frame_duration: u64,
    pub max_frame_duration: Option<u64>,
    pub still_frames: bool,
    pub template: Option<String>,
    pub output_path: Option<String>,
    pub output_path_pos: Option<String>,
}

/// The subcommands of the program.
#[derive(Debug, PartialEq)]
pub enum Commands {
    Record(RecordArgs),
    Render(RenderArgs),
}

/// The options of `record`.
#[derive(Debug, PartialEq)]
pub struct RecordArgs {
    pub output_path: Option<String>,
    pub output_path_pos: Option<String>,
    pub command_to_record: String,
    pub screen_geometry: Option<String>,
}

/// The options of `render`.
#[derive(Debug, PartialEq)]
pub struct RenderArgs {
    pub input_file: String,
    pub output_path: Option<String>,
    pub output_path_pos: Option<String>,
    pub min_frame_duration: u64,
    pub max_frame_duration: Option<u64>,
    pub still_frames: bool,
    pub template: Option<String>,
    pub loop_delay: u64,
}

/// The message for an invalid duration.
pub open spec fn duration_error() -> Seq<char> {
    "duration must be an integer greater than 0"@
}

/// The number part of a duration: the text without a trailing `ms` in any
/// case.
pub open spec fn duration_digits(s: Seq<char>) -> Seq<char> {
    if s.len() >= 2 && (s[s.len() - 2] == 'm' || s[s.len() - 2] == 'M') && (s[s.len() - 1] == 's'
        || s[s.len() - 1] == 'S') {
        s.take(s.len() - 2)
    } else {
        s
    }
}

/// What validating a duration gives: a whole number of milliseconds of at
/// least one, optionally followed by `ms`.
pub open spec fn spec_duration(s: Seq<char>) -> Result<u64, Seq<char>> {
    match parse_unsigned(duration_digits(s), u64::MAX as nat) {
        Some(v) => if v >= 1 {
            Ok(v as u64)
        } else {
            Err(duration_error())
        },
        None => Err(duration_error()),
    }
}

/// The value of a duration result.
pub open spec fn duration_result(r: Result<u64, String>) -> Result<u64, Seq<char>> {
    match r {
        Ok(v) => Ok(v),
        Err(m) => Err(m@),
    }
}

/// Validates a duration in milliseconds such as `100` or `100ms`.
pub fn integral_duration_validation(value: &str) -> (r: Result<u64, String>)
    ensures
        duration_result(r) == spec_duration(value@),
{
    let c = chars_of(value);
    let n = c.len();
    let mut end = n;
    if n >= 2 && (c[n - 2] == 'm' || c[n - 2] == 'M') && (c[n - 1] == 's' || c[n - 1] == 'S') {
        end = n - 2;
    }
    let mut digits: Vec<char> = Vec::new();
    let mut i: usize = 0;
    while i < end
        invariant
            i <= end <= n,
            n == c@.len(),
            c@ == value@,
            digits@ == value@.take(i as int),
        decreases end - i,
    {
        digits.push(c[i]);
        assert(digits@ =~= value@.take(i + 1));
        i = i + 1;
    }
    assert(digits@ =~= duration_digits(value@));
    match parse_unsigned_chars(&digits, u64::MAX) {
        Some(v) => if v >= 1 {
            Ok(v)
        } else {
            Err("duration must be an integer greater than 0".to_owned())
        },
        None => Err("duration must be an integer greater than 0".to_owned()),
    }
}

/// What `shlex::Shlex` yields for a command line: its words as a POSIX
/// shell splits them, up to the first quoting error.
pub uninterp spec fn shell_words(command: Seq<char>) -> Seq<Seq<char>>;

/// Calls `shlex::Shlex::new` and collects the words that the iterator
/// yields. Its result is named by [`shell_words`]; the source of the crate
/// also shows that an empty command has no words.
#[verifier::external_body]
fn shlex_words(command: &str) -> (r: Vec<String>)
    ensures
        strings_view(r@) == shell_words(command@),
        command@.len() == 0 ==> r@.len() == 0,
{
    shlex::Shlex::new(command).collect()
}

/// The program and arguments of the command to record.
pub fn parse_process_args(command: &str) -> (r: Vec<String>)
    ensures
        strings_view(r@) == shell_words(command@),
{
    shlex_words(command)
}

/// The first of two optional paths that is given.
pub open spec fn first_given(a: Option<Seq<char>>, b: Option<Seq<char>>) -> Option<Seq<char>> {
    match a {
        Some(p) => Some(p),
        None => b,
    }
}

/// The output path given by the option or else by the positional argument.
pub fn given_output_path(output_path: &Option<String>, output_path_pos: &Option<String>) -> (r: Option<String>)
    ensures
        r matches Some(p) ==> first_given(
            crate::svg::opt_str_view(*output_path),
            crate::svg::opt_str_view(*output_path_pos),
        ) == Some(p@),
        r is None ==> output_path.is_none() && output_path_pos.is_none(),
{
    match output_path {
        Some(p) => Some(p.clone()),
        None => match output_path_pos {
            Some(p) => Some(p.clone()),
            None => None,
        },
    }
}

/// The name of the template used when none is given.
pub fn default_template_name() -> (r: String)
    ensures
        r@ == "powershell"@,
{
    "powershell".to_owned()
}

/// The template asked for, or the default one.
pub fn template_name(template: &Option<String>) -> (r: String)
    ensures
        template matches Some(t) ==> r@ == t@,
        template is None ==> r@ == "powershell"@,
{
    match template {
        Some(t) => t.clone(),
        None => default_template_name(),
    }
}

/// A duration of at least one millisecond, written in decimal with or
/// without `ms`, reads back as itself.
pub proof fn law_duration_roundtrip(ms: u64)
    requires
        ms >= 1,
    ensures
        spec_duration(decimal(ms as nat)) == Ok::<u64, Seq<char>>(ms),
        spec_duration(decimal(ms as nat) + seq!['m', 's']) == Ok::<u64, Seq<char>>(ms),
{
    let d = decimal(ms as nat);
    lemma_decimal_digits(ms as nat);
    lemma_parse_decimal(ms as nat, u64::MAX as nat);
    assert(!is_digit('s'));
    assert(d[d.len() - 1] != 's' && d[d.len() - 1] != 'S');
    assert(duration_digits(d) == d);
    let e = d + seq!['m', 's'];
    assert(e.take(e.len() - 2) =~= d);
}

/// Durations of zero, and text that is not a whole number, are refused.
pub proof fn law_duration_zero_refused()
    ensures
        spec_duration(seq!['0']) == Err::<u64, Seq<char>>(duration_error()),
        spec_duration(seq!['0', 'm', 's']) == Err::<u64, Seq<char>>(duration_error()),
{
    assert(seq!['0'].drop_last() =~= Seq::<char>::empty());
    assert(('0' as int) == 48);
    assert(crate::text::digit_value('0') == 0);
    assert(seq!['0'].last() == '0');
    assert(digits_value(seq!['0']) == digits_value(Seq::<char>::empty()) * 10 + crate::text::digit_value('0'));
    assert(digits_value(seq!['0']) == 0);
    let e = seq!['0', 'm', 's'];
    assert(e.take(1) =~= seq!['0']);
}

/// Whether `r` are the records of raw terminal output `text` on a screen of
/// `geometry`: a header, then one output event at time zero.
pub open spec fn is_raw_recording(r: Seq<AsciiCastV2Record>, geometry: (u16, u16), text: Seq<char>) -> bool {
    &&& r.len() == 2
    &&& r[0] == AsciiCastV2Record::Header(
        AsciiCastV2Header { version: 2, width: geometry.0, height: geometry.1, theme: None, idle_time_limit: None },
    )
    &&& r[1] matches AsciiCastV2Record::Event(e) && e.time == 0 && e.event_type@ == seq!['o'] && e.event_data@
        == text && e.duration is None
}

/// Whether the piped text parsed as a non-empty recording.
pub open spec fn nonempty_parse(parsed: Option<Vec<AsciiCastV2Record>>) -> bool {
    match parsed {
        Some(v) => v@.len() > 0,
        None => false,
    }
}

/// The records to render from what was piped in: an error when nothing came;
/// the recording that the text holds, when it parsed as a non-empty one
/// (`parsed`); otherwise the text as raw terminal output.
pub fn records_from_stdin(parsed: Option<Vec<AsciiCastV2Record>>, geometry: (u16, u16), text: &str) -> (r: Result<Vec<AsciiCastV2Record>, String>)
    ensures
        text@.len() == 0 ==> (r matches Err(m) && m@ == "No data received on stdin to render"@),
        text@.len() > 0 && nonempty_parse(parsed) ==> r == Ok::<Vec<AsciiCastV2Record>, String>(parsed.unwrap()),
        text@.len() > 0 && !nonempty_parse(parsed) ==> (r matches Ok(v) && is_raw_recording(v@, geometry, text@)),
{
    if text.is_empty() {
        return Err("No data received on stdin to render".to_owned());
    }
    if let Some(v) = parsed {
        if v.len() > 0 {
            return Ok(v);
        }
    }
    let header = match AsciiCastV2Header::new(2, geometry.0, geometry.1, None, None) {
        Ok(h) => h,
        Err(m) => {
            proof {
                assert(false);
            }
            return Err("".to_owned());
        },
    };
    proof {
        reveal_strlit("o");
        assert("o"@ =~= seq!['o']);
    }
    let event = match AsciiCastV2Event::new(0, "o", text, None) {
        Ok(e) => e,
        Err(m) => {
            proof {
                assert(false);
            }
            return Err("".to_owned());
        },
    };
    let mut records: Vec<AsciiCastV2Record> = Vec::new();
    records.push(AsciiCastV2Record::Header(header));
    records.push(AsciiCastV2Record::Event(event));
    Ok(records)
}

} // verus!
