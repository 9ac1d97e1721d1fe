//! Text transformations behind the terminal tool: case mapping, space
//! removal, slugs and identifier casings, each guarded by the command name
//! it was invoked under.

use vstd::prelude::*;
use crate::wire::str_eq;

verus! {

/// The commands the text tool understands.
#[derive(Debug, Clone, Copy, PartialEq, Eq, Structural)]
pub enum Command {
    LowerCase,
    UpperCase,
    NoSpace,
    Slugify,
    CamelCase,
    SnakeCase,
    Csv,
    Unknown,
}

/// Which command a name denotes; every unknown name is `Unknown`.
pub open spec fn spec_command_of(s: Seq<char>) -> Command {
    if s == "lowercase"@ {
        Command::LowerCase
    } else if s == "uppercase"@ {
        Command::UpperCase
    } else if s == "nospace"@ {
        Command::NoSpace
    } else if s == "slugify"@ {
        Command::Slugify
    } else if s == "camelcase"@ {
        Command::CamelCase
    } else if s == "snakecase"@ {
        Command::SnakeCase
    } else if s == "csv"@ {
        Command::Csv
    } else {
        Command::Unknown
    }
}

/// The name each command renders as.
pub open spec fn spec_command_name(c: Command) -> Seq<char> {
    match c {
        Command::LowerCase => "lowercase"@,
        Command::UpperCase => "uppercase"@,
        Command::NoSpace => "nospace"@,
        Command::Slugify => "slugify"@,
        Command::CamelCase => "camelcase"@,
        Command::SnakeCase => "snakecase"@,
        Command::Csv => "csv"@,
        Command::Unknown => "unknown"@,
    }
}

impl Command {
    /// Parses a command name. Never refuses: an unknown name parses to
    /// `Unknown`, which the processing loop then rejects.
    pub fn from_str(input: &str) -> (r: Result<Command, ()>)
        ensures
            r == Ok::<Command, ()>(spec_command_of(input@)),
    {
        if str_eq(input, "lowercase") {
            Ok(Command::LowerCase)
        } else if str_eq(input, "uppercase") {
            Ok(Command::UpperCase)
        } else if str_eq(input, "nospace") {
            Ok(Command::NoSpace)
        } else if str_eq(input, "slugify") {
            Ok(Command::Slugify)
        } else if str_eq(input, "camelcase") {
            Ok(Command::CamelCase)
        } else if str_eq(input, "snakecase") {
            Ok(Command::SnakeCase)
        } else if str_eq(input, "csv") {
            Ok(Command::Csv)
        } else {
            Ok(Command::Unknown)
        }
    }

    /// The command's name.
    pub fn name(&self) -> (r: &'static str)
        ensures
            r@ == spec_command_name(*self),
    {
        match self {
            Command::LowerCase => "lowercase",
            Command::UpperCase => "uppercase",
            Command::NoSpace => "nospace",
            Command::Slugify => "slugify",
            Command::CamelCase => "camelcase",
            Command::SnakeCase => "snakecase",
            Command::Csv => "csv",
            Command::Unknown => "unknown",
        }
    }
}

/// The lowercase mapping of a character sequence, as Unicode defines it.
/// A function of the characters alone; named because its tables take the
/// standard library to compute.
pub uninterp spec fn lower_of(s: Seq<char>) -> Seq<char>;

/// The uppercase mapping of a character sequence, as Unicode defines it.
pub uninterp spec fn upper_of(s: Seq<char>) -> Seq<char>;

/// The ascii slug of a character sequence.
pub uninterp spec fn slug_of(s: Seq<char>) -> Seq<char>;

/// The UpperCamelCase rendering of a character sequence.
pub uninterp spec fn camel_of(s: Seq<char>) -> Seq<char>;

/// The snake_case rendering of a character sequence.
pub uninterp spec fn snake_of(s: Seq<char>) -> Seq<char>;

/// Relies on `str::to_lowercase`: the result depends on the characters
/// alone, and an empty string stays empty.
#[verifier::external_body]
fn to_lowercase_str(s: &str) -> (r: String)
    ensures
        r@ == lower_of(s@),
        s@.len() == 0 ==> r@.len() == 0,
{
    s.to_lowercase()
}

/// Relies on `str::to_uppercase`: the result depends on the characters
/// alone, and an empty string stays empty.
#[verifier::external_body]
fn to_uppercase_str(s: &str) -> (r: String)
    ensures
        r@ == upper_of(s@),
        s@.len() == 0 ==> r@.len() == 0,
{
    s.to_uppercase()
}

/// Relies on `slug::slugify`: the slug depends on the characters alone.
#[verifier::external_body]
fn slugify_str(s: &str) -> (r: String)
    ensures
        r@ == slug_of(s@),
{
    slug::slugify(s)
}

/// Relies on `heck::AsUpperCamelCase`: the rendering depends on the
/// characters alone.
#[verifier::external_body]
fn upper_camel_str(s: &str) -> (r: String)
    ensures
        r@ == camel_of(s@),
{
    heck::AsUpperCamelCase(s).to_string()
}

/// Relies on `heck::AsSnakeCase`: the rendering depends on the characters
/// alone.
#[verifier::external_body]
fn snake_case_str(s: &str) -> (r: String)
    ensures
        r@ == snake_of(s@),
{
    heck::AsSnakeCase(s).to_string()
}

/// The refusal text when a transformation is invoked under the wrong
/// command name.
pub open spec fn spec_wrong_command_text(expected: Seq<char>, got: Seq<char>) -> Seq<char> {
    expected + " was called, but the command argument is "@ + got
}

/// Builds the refusal text for a transformation invoked under the wrong
/// command name.
pub(crate) fn wrong_command_text(expected: &str, got: &String) -> (r: String)
    ensures
        r@ == spec_wrong_command_text(expected@, got@),
{
    let mut t = String::from_str(expected);
    t.append(" was called, but the command argument is ");
    t.append(got.as_str());
    t
}

/// Lowercases `text`, provided the command argument really is
/// `lowercase`; any other argument is refused.
pub fn lowercase(argm: &String, text: &String) -> (r: Result<String, String>)
    ensures
        match r {
            Ok(out) => argm@ == "lowercase"@ && out@ == lower_of(text@),
            Err(e) => argm@ != "lowercase"@ && e@ == spec_wrong_command_text(
                "lowercase"@,
                argm@,
            ),
        },
{
    if !str_eq(argm.as_str(), "lowercase") {
        Err(wrong_command_text("lowercase", argm))
    } else {
        Ok(to_lowercase_str(text.as_str()))
    }
}

/// Uppercases `text`, provided the command argument really is `uppercase`.
pub fn uppercase(argm: &String, text: &String) -> (r: Result<String, String>)
    ensures
        match r {
            Ok(out) => argm@ == "uppercase"@ && out@ == upper_of(text@),
            Err(e) => argm@ != "uppercase"@ && e@ == spec_wrong_command_text(
                "uppercase"@,
                argm@,
            ),
        },
{
    if !str_eq(argm.as_str(), "uppercase") {
        Err(wrong_command_text("uppercase", argm))
    } else {
        Ok(to_uppercase_str(text.as_str()))
    }
}

/// Appends one character to a string. Relies on `String::push`.
#[verifier::external_body]
pub(crate) fn push_char(s: &mut String, c: char)
    ensures
        final(s)@ == old(s)@ + seq![c],
{
    s.push(c);
}

/// Removes every blank from `text`, provided the command argument is
/// `no-space` — a name the command `nospace` never renders as, so calls
/// made through the processing loop are always refused.
pub fn no_space(argm: &String, text: &String) -> (r: Result<String, String>)
    ensures
        match r {
            Ok(out) => argm@ == "no-space"@ && out@ == text@.filter(|c: char| c != ' '),
            Err(e) => argm@ != "no-space"@ && e@ == spec_wrong_command_text("no-space"@, argm@),
        },
{
    proof {
        reveal_strlit("no-space");
    }
    if !str_eq(argm.as_str(), "no-space") {
        Err(wrong_command_text("no-space", argm))
    } else {
        let s = text.as_str();
        let n = s.unicode_len();
        let mut out = String::new();
        let mut k: usize = 0;
        while k < n
            invariant
                n == s@.len(),
                k <= n,
                out@ == s@.subrange(0, k as int).filter(|c: char| c != ' '),
            decreases n - k,
        {
            let ghost pred = |c: char| c != ' ';
            let ghost prefix = s@.subrange(0, k as int);
            let ghost one = s@.subrange(k as int, k as int + 1);
            proof {
                assert(s@.subrange(0, k as int + 1) =~= prefix + one);
                Seq::filter_distributes_over_add(prefix, one, pred);
                reveal_with_fuel(Seq::filter, 3);
                assert(one =~= seq![s@[k as int]]);
                assert(one.drop_last() =~= Seq::<char>::empty());
            }
            let c = s.get_char(k);
            if c != ' ' {
                push_char(&mut out, c);
            }
            k = k + 1;
        }
        proof {
            assert(s@.subrange(0, n as int) =~= s@);
        }
        Ok(out)
    }
}

/// Slugs `text`, provided the command argument really is `slugify`.
pub fn my_slugify(argm: &String, text: &String) -> (r: Result<String, String>)
    ensures
        match r {
            Ok(out) => argm@ == "slugify"@ && out@ == slug_of(text@),
            Err(e) => argm@ != "slugify"@ && e@ == spec_wrong_command_text("slugify"@, argm@),
        },
{
    if !str_eq(argm.as_str(), "slugify") {
        Err(wrong_command_text("slugify", argm))
    } else {
        Ok(slugify_str(text.as_str()))
    }
}

/// Renders `text` in UpperCamelCase, provided the command argument really
/// is `camelcase`.
pub fn camelcase(argm: &String, text: &String) -> (r: Result<String, String>)
    ensures
        match r {
            Ok(out) => argm@ == "camelcase"@ && out@ == camel_of(text@),
            Err(e) => argm@ != "camelcase"@ && e@ == spec_wrong_command_text(
                "camelcase"@,
                argm@,
            ),
        },
{
    if !str_eq(argm.as_str(), "camelcase") {
        Err(wrong_command_text("camelcase", argm))
    } else {
        Ok(upper_camel_str(text.as_str()))
    }
}

/// Renders `text` in snake_case, provided the command argument really is
/// `snakecase`.
pub fn snakecase(argm: &String, text: &String) -> (r: Result<String, String>)
    ensures
        match r {
            Ok(out) => argm@ == "snakecase"@ && out@ == snake_of(text@),
            Err(e) => argm@ != "snakecase"@ && e@ == spec_wrong_command_text(
                "snakecase"@,
                argm@,
            ),
        },
{
    if !str_eq(argm.as_str(), "snakecase") {
        Err(wrong_command_text("snakecase", argm))
    } else {
        Ok(snake_case_str(text.as_str()))
    }
}

} // verus!
