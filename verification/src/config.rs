//! Command-line configuration values: the screen geometry option and the
//! built-in templates.

use vstd::prelude::*;

use crate::text::{
    chars_of, decimal, lemma_decimal_no, lemma_parse_decimal, lemma_split_two, parse_unsigned,
    parse_unsigned_chars, push_str, spec_split, split_chars, str_eq, strings_view,
};

verus! {

/// `s` with `X` written as `x`: the only change that lowercasing makes to a
/// geometry that can be valid.
pub open spec fn lower_x(s: Seq<char>) -> Seq<char> {
    Seq::new(s.len(), |i: int| if s[i] == 'X' { 'x' } else { s[i] })
}

/// The message for an invalid `screen-geometry` value.
pub open spec fn geometry_error(s: Seq<char>) -> Seq<char> {
    "Invalid value for screen-geometry option: \""@ + s + "\""@
}

/// What parsing a screen geometry gives: `COLUMNSxROWS` (the `x` in either
/// case), each a nonzero `u16` written as `str::parse` accepts it.
pub open spec fn spec_validate_geometry(s: Seq<char>) -> Result<(u16, u16), Seq<char>> {
    let parts = spec_split(lower_x(s), 'x');
    if parts.len() == 2 && parse_unsigned(parts[0], 0xffff) is Some && parse_unsigned(parts[1], 0xffff)
        is Some && parse_unsigned(parts[0], 0xffff).unwrap() != 0 && parse_unsigned(parts[1], 0xffff).unwrap() != 0 {
        Ok((parse_unsigned(parts[0], 0xffff).unwrap() as u16, parse_unsigned(parts[1], 0xffff).unwrap() as u16))
    } else {
        Err(geometry_error(s))
    }
}

/// The value of a geometry result.
pub open spec fn geometry_result(r: Result<(u16, u16), String>) -> Result<(u16, u16), Seq<char>> {
    match r {
        Ok(g) => Ok(g),
        Err(m) => Err(m@),
    }
}

fn geometry_message(s: &str) -> (m: String)
    ensures
        m@ == geometry_error(s@),
{
    let mut m = String::new();
    push_str(&mut m, "Invalid value for screen-geometry option: \"");
    push_str(&mut m, s);
    push_str(&mut m, "\"");
    assert(m@ =~= geometry_error(s@));
    m
}

/// Parses a screen geometry such as `82x24` into columns and rows.
pub fn validate_geometry(screen_geometry: &str) -> (r: Result<(u16, u16), String>)
    ensures
        geometry_result(r) == spec_validate_geometry(screen_geometry@),
{
    let chars = chars_of(screen_geometry);
    let mut lowered: Vec<char> = Vec::new();
    let mut i: usize = 0;
    while i < chars.len()
        invariant
            i <= chars@.len(),
            chars@ == screen_geometry@,
            lowered@ == lower_x(chars@).take(i as int),
        decreases chars.len() - i,
    {
        let c = chars[i];
        lowered.push(if c == 'X' { 'x' } else { c });
        assert(lowered@ =~= lower_x(chars@).take(i + 1));
        i = i + 1;
    }
    assert(lowered@ =~= lower_x(screen_geometry@));
    let parts = split_chars(&lowered, 'x');
    let ghost ps = spec_split(lower_x(screen_geometry@), 'x');
    if parts.len() != 2 {
        assert(strings_view(parts@).len() == parts@.len());
        return Err(geometry_message(screen_geometry));
    }
    assert(ps[0] == parts@[0]@);
    assert(ps[1] == parts@[1]@);
    let c0 = chars_of(parts[0].as_str());
    let columns = match parse_unsigned_chars(&c0, 0xffff) {
        Some(v) => v,
        None => {
            return Err(geometry_message(screen_geometry));
        },
    };
    let c1 = chars_of(parts[1].as_str());
    let rows = match parse_unsigned_chars(&c1, 0xffff) {
        Some(v) => v,
        None => {
            return Err(geometry_message(screen_geometry));
        },
    };
    if columns == 0 || rows == 0 {
        return Err(geometry_message(screen_geometry));
    }
    Ok((columns as u16, rows as u16))
}

/// The file names of the built-in templates.
pub open spec fn default_template_names() -> Seq<Seq<char>> {
    seq![
        "base16_default_dark.svg"@,
        "dracula.svg"@,
        "gjm8_play.svg"@,
        "gjm8_single_loop.svg"@,
        "gjm8.svg"@,
        "powershell.svg"@,
        "progress_bar.svg"@,
        "putty.svg"@,
        "solarized_dark.svg"@,
        "solarized_light.svg"@,
        "terminal_app.svg"@,
        "ubuntu.svg"@,
        "window_frame_js.svg"@,
        "window_frame_powershell.svg"@,
        "window_frame.svg"@,
        "xterm.svg"@,
    ]
}

/// The file names of the built-in templates.
pub fn default_templates_names() -> (r: Vec<&'static str>)
    ensures
        Seq::new(r@.len(), |i: int| r@[i]@) == default_template_names(),
{
    let r: Vec<&'static str> = vec![
        "base16_default_dark.svg",
        "dracula.svg",
        "gjm8_play.svg",
        "gjm8_single_loop.svg",
        "gjm8.svg",
        "powershell.svg",
        "progress_bar.svg",
        "putty.svg",
        "solarized_dark.svg",
        "solarized_light.svg",
        "terminal_app.svg",
        "ubuntu.svg",
        "window_frame_js.svg",
        "window_frame_powershell.svg",
        "window_frame.svg",
        "xterm.svg",
    ];
    assert(Seq::new(r@.len(), |i: int| r@[i]@) =~= default_template_names());
    r
}

/// `name` without a trailing `.svg`.
pub open spec fn template_key(name: Seq<char>) -> Seq<char> {
    if name.len() >= 4 && name.skip(name.len() - 4) == ".svg"@ {
        name.take(name.len() - 4)
    } else {
        name
    }
}

/// The first file of `files` named `name`.
pub open spec fn file_named(files: Seq<(Seq<char>, Seq<u8>)>, name: Seq<char>) -> Option<Seq<u8>>
    decreases files.len(),
{
    if files.len() == 0 {
        None
    } else if files[0].0 == name {
        Some(files[0].1)
    } else {
        file_named(files.drop_first(), name)
    }
}

/// The built-in templates among `names` found in `files`, each under its
/// name without `.svg`, in the order of `names`.
pub open spec fn templates_from(names: Seq<Seq<char>>, files: Seq<(Seq<char>, Seq<u8>)>) -> Seq<(Seq<char>, Seq<u8>)>
    decreases names.len(),
{
    if names.len() == 0 {
        Seq::empty()
    } else {
        let prev = templates_from(names.drop_last(), files);
        match file_named(files, names.last()) {
            Some(b) => prev.push((template_key(names.last()), b)),
            None => prev,
        }
    }
}

/// The value of a list of named files.
pub open spec fn files_view(v: Seq<(String, Vec<u8>)>) -> Seq<(Seq<char>, Seq<u8>)> {
    Seq::new(v.len(), |i: int| (v[i].0@, v[i].1@))
}

fn find_file<'a>(files: &'a Vec<(String, Vec<u8>)>, name: &str) -> (r: Option<&'a Vec<u8>>)
    ensures
        match r {
            Some(b) => file_named(files_view(files@), name@) == Some(b@),
            None => file_named(files_view(files@), name@) is None,
        },
{
    let ghost fv = files_view(files@);
    let mut i: usize = 0;
    assert(fv.skip(0) =~= fv);
    while i < files.len()
        invariant
            i <= files@.len(),
            fv == files_view(files@),
            file_named(fv, name@) == file_named(fv.skip(i as int), name@),
        decreases files.len() - i,
    {
        assert(fv.skip(i as int).drop_first() =~= fv.skip(i + 1));
        if str_eq(files[i].0.as_str(), name) {
            return Some(&files[i].1);
        }
        i = i + 1;
    }
    None
}

fn strip_svg(name: &str) -> (r: String)
    ensures
        r@ == template_key(name@),
{
    let c = chars_of(name);
    let n = c.len();
    if n >= 4 && c[n - 4] == '.' && c[n - 3] == 's' && c[n - 2] == 'v' && c[n - 1] == 'g' {
        proof {
            reveal_strlit(".svg");
            assert(name@.skip(n - 4) =~= ".svg"@);
        }
        let mut r = String::new();
        let mut i: usize = 0;
        while i < n - 4
            invariant
                i <= n - 4,
                n == c@.len(),
                c@ == name@,
                r@ == name@.take(i as int),
            decreases n - 4 - i,
        {
            crate::text::string_push(&mut r, c[i]);
            assert(r@ =~= name@.take(i + 1));
            i = i + 1;
        }
        r
    } else {
        proof {
            reveal_strlit(".svg");
            if n >= 4 && name@.skip(n - 4) == ".svg"@ {
                assert(name@.skip(n - 4)[0] == '.');
                assert(name@.skip(n - 4)[1] == 's');
                assert(name@.skip(n - 4)[2] == 'v');
                assert(name@.skip(n - 4)[3] == 'g');
            }
        }
        name.to_owned()
    }
}

/// The built-in templates found among the template files: each under its
/// file name without `.svg`.
pub fn default_templates(files: &Vec<(String, Vec<u8>)>) -> (r: Vec<(String, Vec<u8>)>)
    ensures
        files_view(r@) == templates_from(default_template_names(), files_view(files@)),
{
    let names = default_templates_names();
    let ghost ns = Seq::new(names@.len(), |i: int| names@[i]@);
    let mut templates: Vec<(String, Vec<u8>)> = Vec::new();
    let mut i: usize = 0;
    assert(ns.take(0) =~= Seq::empty());
    assert(files_view(templates@) =~= Seq::empty());
    while i < names.len()
        invariant
            i <= names@.len(),
            ns == Seq::new(names@.len(), |i: int| names@[i]@),
            ns == default_template_names(),
            files_view(templates@) == templates_from(ns.take(i as int), files_view(files@)),
        decreases names.len() - i,
    {
        let name = names[i];
        assert(ns.take(i + 1).drop_last() =~= ns.take(i as int));
        assert(ns.take(i + 1).last() == name@);
        if let Some(bytes) = find_file(files, name) {
            let key = strip_svg(name);
            templates.push((key, bytes.clone()));
            assert(files_view(templates@) =~= templates_from(ns.take(i + 1), files_view(files@)));
        }
        i = i + 1;
    }
    assert(ns.take(i as int) =~= ns);
    templates
}

/// The template named `name` among the built-in templates.
pub fn find_template<'a>(name: &str, templates: &'a Vec<(String, Vec<u8>)>) -> (r: Option<&'a Vec<u8>>)
    ensures
        match r {
            Some(b) => file_named(files_view(templates@), name@) == Some(b@),
            None => file_named(files_view(templates@), name@) is None,
        },
{
    find_file(templates, name)
}

/// A geometry written as `COLUMNSxROWS` reads back as itself.
pub proof fn law_geometry_roundtrip(columns: u16, rows: u16)
    requires
        columns > 0,
        rows > 0,
    ensures
        spec_validate_geometry(decimal(columns as nat) + seq!['x'] + decimal(rows as nat)) == Ok::<
            (u16, u16),
            Seq<char>,
        >((columns, rows)),
{
    let a = decimal(columns as nat);
    let b = decimal(rows as nat);
    let s = a + seq!['x'] + b;
    lemma_decimal_no(columns as nat, 'x');
    lemma_decimal_no(columns as nat, 'X');
    lemma_decimal_no(rows as nat, 'x');
    lemma_decimal_no(rows as nat, 'X');
    assert forall|i: int| 0 <= i < s.len() implies s[i] != 'X' by {
        if i < a.len() {
            assert(s[i] == a[i]);
        } else if i > a.len() {
            assert(s[i] == b[i - a.len() - 1]);
        }
    }
    assert(lower_x(s) =~= s);
    lemma_split_two(a, b, 'x');
    lemma_parse_decimal(columns as nat, 0xffff);
    lemma_parse_decimal(rows as nat, 0xffff);
}

} // verus!
