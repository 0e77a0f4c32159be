//! Log levels as command line values: names, aliases and defaults.

use vstd::prelude::*;

use crate::text::chars_of;

verus! {

/// The levels of log records, as `log::Level` orders them.
#[derive(Debug, Clone, Copy, PartialEq, Eq, Structural, PartialOrd, Ord, Hash)]
pub enum LogLevel {
    /// Errors.
    Error,
    /// Warnings.
    Warn,
    /// Information.
    Info,
    /// Debugging.
    Debug,
    /// Tracing.
    Trace,
}

/// The filters of log records, as `log::LevelFilter` orders them.
#[derive(Debug, Clone, Copy, PartialEq, Eq, Structural, PartialOrd, Ord, Hash)]
pub enum LogLevelFilter {
    /// Nothing is logged.
    Off,
    /// Errors.
    Error,
    /// Warnings.
    Warn,
    /// Information.
    Info,
    /// Debugging.
    Debug,
    /// Tracing.
    Trace,
}

/// Level newtype.
#[derive(Debug, Clone, Copy, PartialEq, Eq, Structural, PartialOrd, Ord, Hash)]
pub struct Level(pub LogLevel);

/// LevelFilter newtype.
#[derive(Debug, Clone, Copy, PartialEq, Eq, Structural, PartialOrd, Ord, Hash)]
pub struct LevelFilter(pub LogLevelFilter);

/// The name of a level.
pub open spec fn level_name(l: LogLevel) -> Seq<char> {
    match l {
        LogLevel::Error => "Error"@,
        LogLevel::Warn => "Warn"@,
        LogLevel::Info => "Info"@,
        LogLevel::Debug => "Debug"@,
        LogLevel::Trace => "Trace"@,
    }
}

/// The name of a level filter.
pub open spec fn filter_name(l: LogLevelFilter) -> Seq<char> {
    match l {
        LogLevelFilter::Off => "Off"@,
        LogLevelFilter::Error => "Error"@,
        LogLevelFilter::Warn => "Warn"@,
        LogLevelFilter::Info => "Info"@,
        LogLevelFilter::Debug => "Debug"@,
        LogLevelFilter::Trace => "Trace"@,
    }
}

/// The lowercase form of an ASCII letter; other characters stay.
pub open spec fn ascii_lower(c: char) -> char {
    if 'A' <= c <= 'Z' {
        ((c as u32) + 32) as char
    } else {
        c
    }
}

/// The uppercase form of an ASCII letter; other characters stay.
pub open spec fn ascii_upper(c: char) -> char {
    if 'a' <= c <= 'z' {
        ((c as u32) - 32) as char
    } else {
        c
    }
}

/// A text with its ASCII letters in lowercase.
pub open spec fn lower_text(s: Seq<char>) -> Seq<char> {
    s.map_values(|c: char| ascii_lower(c))
}

/// A text with its ASCII letters in uppercase.
pub open spec fn upper_text(s: Seq<char>) -> Seq<char> {
    s.map_values(|c: char| ascii_upper(c))
}

/// Whether two texts are equal, ASCII letters compared without case where asked.
pub open spec fn text_eq(a: Seq<char>, b: Seq<char>, ignore_case: bool) -> bool {
    if ignore_case {
        lower_text(a) == lower_text(b)
    } else {
        a == b
    }
}

/// Whether a value names something with this name: by the name, its lowercase or its
/// uppercase form.
pub open spec fn names(name: Seq<char>, input: Seq<char>, ignore_case: bool) -> bool {
    text_eq(name, input, ignore_case) || text_eq(lower_text(name), input, ignore_case)
        || text_eq(upper_text(name), input, ignore_case)
}

/// The levels in the order they are offered.
pub open spec fn level_variants() -> Seq<LogLevel> {
    seq![LogLevel::Trace, LogLevel::Debug, LogLevel::Info, LogLevel::Warn, LogLevel::Error]
}

/// The level filters in the order they are offered.
pub open spec fn filter_variants() -> Seq<LogLevelFilter> {
    seq![LogLevelFilter::Trace, LogLevelFilter::Debug, LogLevelFilter::Info, LogLevelFilter::Warn, LogLevelFilter::Error, LogLevelFilter::Off]
}

/// The first level, in the order offered, that a value names.
pub open spec fn level_named(input: Seq<char>, ignore_case: bool) -> Option<LogLevel> {
    let vs = level_variants();
    if names(level_name(vs[0]), input, ignore_case) {
        Some(vs[0])
    } else if names(level_name(vs[1]), input, ignore_case) {
        Some(vs[1])
    } else if names(level_name(vs[2]), input, ignore_case) {
        Some(vs[2])
    } else if names(level_name(vs[3]), input, ignore_case) {
        Some(vs[3])
    } else if names(level_name(vs[4]), input, ignore_case) {
        Some(vs[4])
    } else {
        None
    }
}

/// The first level filter, in the order offered, that a value names.
pub open spec fn filter_named(input: Seq<char>, ignore_case: bool) -> Option<LogLevelFilter> {
    let vs = filter_variants();
    if names(filter_name(vs[0]), input, ignore_case) {
        Some(vs[0])
    } else if names(filter_name(vs[1]), input, ignore_case) {
        Some(vs[1])
    } else if names(filter_name(vs[2]), input, ignore_case) {
        Some(vs[2])
    } else if names(filter_name(vs[3]), input, ignore_case) {
        Some(vs[3])
    } else if names(filter_name(vs[4]), input, ignore_case) {
        Some(vs[4])
    } else if names(filter_name(vs[5]), input, ignore_case) {
        Some(vs[5])
    } else {
        None
    }
}

/// The message of a value that names no level.
pub open spec fn invalid_variant(input: Seq<char>) -> Seq<char> {
    "invalid variant: "@ + input
}

/// Trusted: builds `clap::builder::PossibleValue::new(name).aliases([lower, upper])` and
/// calls its `matches(input, ignore_case)`. clap's source holds it where the input equals the
/// name or one of the aliases, compared by `str::eq_ignore_ascii_case` where case is ignored
/// (the crate's `unicode` feature, which would fold more than ASCII, is not enabled).
#[verifier::external_body]
fn possible_value_matches(
    name: &'static str,
    lower: &'static str,
    upper: &'static str,
    input: &str,
    ignore_case: bool,
) -> (r: bool)
    ensures
        r == (text_eq(name@, input@, ignore_case) || text_eq(lower@, input@, ignore_case)
            || text_eq(upper@, input@, ignore_case)),
{
    clap::builder::PossibleValue::new(name).aliases([lower, upper]).matches(input, ignore_case)
}

/// The lowercase and uppercase forms of the names offered.
proof fn lemma_case_forms()
    ensures
        lower_text("Trace"@) == "trace"@ && upper_text("Trace"@) == "TRACE"@,
        lower_text("Debug"@) == "debug"@ && upper_text("Debug"@) == "DEBUG"@,
        lower_text("Info"@) == "info"@ && upper_text("Info"@) == "INFO"@,
        lower_text("Warn"@) == "warn"@ && upper_text("Warn"@) == "WARN"@,
        lower_text("Error"@) == "error"@ && upper_text("Error"@) == "ERROR"@,
        lower_text("Off"@) == "off"@ && upper_text("Off"@) == "OFF"@,
{
    reveal_strlit("Trace");
    reveal_strlit("trace");
    reveal_strlit("TRACE");
    reveal_strlit("Debug");
    reveal_strlit("debug");
    reveal_strlit("DEBUG");
    reveal_strlit("Info");
    reveal_strlit("info");
    reveal_strlit("INFO");
    reveal_strlit("Warn");
    reveal_strlit("warn");
    reveal_strlit("WARN");
    reveal_strlit("Error");
    reveal_strlit("error");
    reveal_strlit("ERROR");
    reveal_strlit("Off");
    reveal_strlit("off");
    reveal_strlit("OFF");
    assert(lower_text("Trace"@) =~= "trace"@);
    assert(upper_text("Trace"@) =~= "TRACE"@);
    assert(lower_text("Debug"@) =~= "debug"@);
    assert(upper_text("Debug"@) =~= "DEBUG"@);
    assert(lower_text("Info"@) =~= "info"@);
    assert(upper_text("Info"@) =~= "INFO"@);
    assert(lower_text("Warn"@) =~= "warn"@);
    assert(upper_text("Warn"@) =~= "WARN"@);
    assert(lower_text("Error"@) =~= "error"@);
    assert(upper_text("Error"@) =~= "ERROR"@);
    assert(lower_text("Off"@) =~= "off"@);
    assert(upper_text("Off"@) =~= "OFF"@);
}

/// Whether a value names something with this name, given the lowercase and uppercase forms
/// of the name as its aliases.
fn names_exec(name: &'static str, lower: &'static str, upper: &'static str, input: &str, ignore_case: bool) -> (r: bool)
    requires
        lower@ == lower_text(name@),
        upper@ == upper_text(name@),
    ensures
        r == names(name@, input@, ignore_case),
{
    possible_value_matches(name, lower, upper, input, ignore_case)
}

/// The message of a value that names nothing.
fn invalid_variant_message(input: &[char]) -> (r: String)
    ensures
        r@ == invalid_variant(input@),
{
    let mut s = String::from_str("invalid variant: ");
    let t = crate::text::string_from_chars(input);
    s.append(t.as_str());
    s
}

impl Level {
    /// The default level: `Trace` where debug assertions are on, `Info` otherwise.
    pub fn default_for(debug_assertions: bool) -> (r: Level)
        ensures
            r.0 == (if debug_assertions { LogLevel::Trace } else { LogLevel::Info }),
    {
        if debug_assertions {
            Level(LogLevel::Trace)
        } else {
            Level(LogLevel::Info)
        }
    }

    /// Convert to the inner level.
    pub fn into_inner(self) -> (r: LogLevel)
        ensures
            r == self.0,
    {
        self.0
    }

    /// The levels in the order they are offered.
    pub fn value_variants() -> (r: Vec<Level>)
        ensures
            r@.len() == 5,
            forall|i: int| 0 <= i < 5 ==> (#[trigger] r@[i]).0 == level_variants()[i],
    {
        let mut v: Vec<Level> = Vec::new();
        v.push(Level(LogLevel::Trace));
        v.push(Level(LogLevel::Debug));
        v.push(Level(LogLevel::Info));
        v.push(Level(LogLevel::Warn));
        v.push(Level(LogLevel::Error));
        v
    }

    /// The name of the level, as it is displayed.
    pub fn name(&self) -> (r: &'static str)
        ensures
            r@ == level_name(self.0),
    {
        match self.0 {
            LogLevel::Error => "Error",
            LogLevel::Warn => "Warn",
            LogLevel::Info => "Info",
            LogLevel::Debug => "Debug",
            LogLevel::Trace => "Trace",
        }
    }

    /// The level a value names, by a name, its lowercase or uppercase form; the first in
    /// the order offered.
    pub fn from_str(input: &str, ignore_case: bool) -> (r: Result<Level, String>)
        ensures
            match level_named(input@, ignore_case) {
                Some(l) => r == Ok::<Level, String>(Level(l)),
                None => r matches Err(m) && m@ == invalid_variant(input@),
            },
    {
        proof {
            lemma_case_forms();
        }
        if names_exec("Trace", "trace", "TRACE", input, ignore_case) {
            Ok(Level(LogLevel::Trace))
        } else if names_exec("Debug", "debug", "DEBUG", input, ignore_case) {
            Ok(Level(LogLevel::Debug))
        } else if names_exec("Info", "info", "INFO", input, ignore_case) {
            Ok(Level(LogLevel::Info))
        } else if names_exec("Warn", "warn", "WARN", input, ignore_case) {
            Ok(Level(LogLevel::Warn))
        } else if names_exec("Error", "error", "ERROR", input, ignore_case) {
            Ok(Level(LogLevel::Error))
        } else {
            Err(invalid_variant_message(chars_of(input).as_slice()))
        }
    }
}

impl LevelFilter {
    /// The default filter: `Trace` where debug assertions are on, `Info` otherwise.
    pub fn default_for(debug_assertions: bool) -> (r: LevelFilter)
        ensures
            r.0 == (if debug_assertions { LogLevelFilter::Trace } else { LogLevelFilter::Info }),
    {
        if debug_assertions {
            LevelFilter(LogLevelFilter::Trace)
        } else {
            LevelFilter(LogLevelFilter::Info)
        }
    }

    /// Convert to the inner filter.
    pub fn into_inner(self) -> (r: LogLevelFilter)
        ensures
            r == self.0,
    {
        self.0
    }

    /// The filters in the order they are offered.
    pub fn value_variants() -> (r: Vec<LevelFilter>)
        ensures
            r@.len() == 6,
            forall|i: int| 0 <= i < 6 ==> (#[trigger] r@[i]).0 == filter_variants()[i],
    {
        let mut v: Vec<LevelFilter> = Vec::new();
        v.push(LevelFilter(LogLevelFilter::Trace));
        v.push(LevelFilter(LogLevelFilter::Debug));
        v.push(LevelFilter(LogLevelFilter::Info));
        v.push(LevelFilter(LogLevelFilter::Warn));
        v.push(LevelFilter(LogLevelFilter::Error));
        v.push(LevelFilter(LogLevelFilter::Off));
        v
    }

    /// The name of the filter, as it is displayed.
    pub fn name(&self) -> (r: &'static str)
        ensures
            r@ == filter_name(self.0),
    {
        match self.0 {
            LogLevelFilter::Off => "Off",
            LogLevelFilter::Error => "Error",
            LogLevelFilter::Warn => "Warn",
            LogLevelFilter::Info => "Info",
            LogLevelFilter::Debug => "Debug",
            LogLevelFilter::Trace => "Trace",
        }
    }

    /// The filter a value names, by a name, its lowercase or uppercase form; the first in
    /// the order offered.
    pub fn from_str(input: &str, ignore_case: bool) -> (r: Result<LevelFilter, String>)
        ensures
            match filter_named(input@, ignore_case) {
                Some(l) => r == Ok::<LevelFilter, String>(LevelFilter(l)),
                None => r matches Err(m) && m@ == invalid_variant(input@),
            },
    {
        proof {
            lemma_case_forms();
        }
        if names_exec("Trace", "trace", "TRACE", input, ignore_case) {
            Ok(LevelFilter(LogLevelFilter::Trace))
        } else if names_exec("Debug", "debug", "DEBUG", input, ignore_case) {
            Ok(LevelFilter(LogLevelFilter::Debug))
        } else if names_exec("Info", "info", "INFO", input, ignore_case) {
            Ok(LevelFilter(LogLevelFilter::Info))
        } else if names_exec("Warn", "warn", "WARN", input, ignore_case) {
            Ok(LevelFilter(LogLevelFilter::Warn))
        } else if names_exec("Error", "error", "ERROR", input, ignore_case) {
            Ok(LevelFilter(LogLevelFilter::Error))
        } else if names_exec("Off", "off", "OFF", input, ignore_case) {
            Ok(LevelFilter(LogLevelFilter::Off))
        } else {
            Err(invalid_variant_message(chars_of(input).as_slice()))
        }
    }
}

/// Every level is read back from its displayed name.
pub proof fn law_level_name_roundtrip(l: LogLevel)
    ensures
        level_named(level_name(l), false) == Some(l),
{
    reveal_strlit("Error");
    reveal_strlit("Warn");
    reveal_strlit("Info");
    reveal_strlit("Debug");
    reveal_strlit("Trace");
    let vs = level_variants();
    assert forall|k: int| 0 <= k < 5 && vs[k] != l implies !names(level_name(vs[k]), level_name(l), false) by {
        lemma_names_distinct(level_name(vs[k]), level_name(l));
    }
}

/// Every level filter is read back from its displayed name.
pub proof fn law_filter_name_roundtrip(l: LogLevelFilter)
    ensures
        filter_named(filter_name(l), false) == Some(l),
{
    reveal_strlit("Off");
    reveal_strlit("Error");
    reveal_strlit("Warn");
    reveal_strlit("Info");
    reveal_strlit("Debug");
    reveal_strlit("Trace");
    let vs = filter_variants();
    let n = filter_name(l);
    if vs[0] != l {
        lemma_names_distinct(filter_name(vs[0]), n);
    }
    if vs[1] != l {
        lemma_names_distinct(filter_name(vs[1]), n);
    }
    if vs[2] != l {
        lemma_names_distinct(filter_name(vs[2]), n);
    }
    if vs[3] != l {
        lemma_names_distinct(filter_name(vs[3]), n);
    }
    if vs[4] != l {
        lemma_names_distinct(filter_name(vs[4]), n);
    }
}

/// Two different names, each capitalized with the rest lowercase, are not named by each
/// other in any case form.
proof fn lemma_names_distinct(a: Seq<char>, b: Seq<char>)
    requires
        a != b,
        a.len() > 1,
        b.len() > 1,
        'A' <= a[0] <= 'Z',
        'A' <= b[0] <= 'Z',
        forall|i: int| 1 <= i < a.len() ==> 'a' <= #[trigger] a[i] <= 'z',
        forall|i: int| 1 <= i < b.len() ==> 'a' <= #[trigger] b[i] <= 'z',
    ensures
        !names(a, b, false),
{
    assert(lower_text(a)[0] != b[0]);
    assert(upper_text(a).len() == a.len());
    if upper_text(a) == b {
        assert(upper_text(a)[1] == b[1]);
    }
}

/// The literal names and their case forms, each told apart by its first character.
proof fn lemma_name_literals()
    ensures
        "Trace"@[0] == 'T' && "trace"@[0] == 't' && "TRACE"@[0] == 'T',
        "Debug"@[0] == 'D' && "debug"@[0] == 'd' && "DEBUG"@[0] == 'D',
        "Info"@[0] == 'I' && "info"@[0] == 'i' && "INFO"@[0] == 'I',
        "Warn"@[0] == 'W' && "warn"@[0] == 'w' && "WARN"@[0] == 'W',
        "Error"@[0] == 'E' && "error"@[0] == 'e' && "ERROR"@[0] == 'E',
        "Off"@[0] == 'O' && "off"@[0] == 'o' && "OFF"@[0] == 'O',
        "Trace"@.len() == 5 && "trace"@.len() == 5 && "TRACE"@.len() == 5,
        "Debug"@.len() == 5 && "debug"@.len() == 5 && "DEBUG"@.len() == 5,
        "Info"@.len() == 4 && "info"@.len() == 4 && "INFO"@.len() == 4,
        "Warn"@.len() == 4 && "warn"@.len() == 4 && "WARN"@.len() == 4,
        "Error"@.len() == 5 && "error"@.len() == 5 && "ERROR"@.len() == 5,
        "Off"@.len() == 3 && "off"@.len() == 3 && "OFF"@.len() == 3,
{
    reveal_strlit("Trace");
    reveal_strlit("trace");
    reveal_strlit("TRACE");
    reveal_strlit("Debug");
    reveal_strlit("debug");
    reveal_strlit("DEBUG");
    reveal_strlit("Info");
    reveal_strlit("info");
    reveal_strlit("INFO");
    reveal_strlit("Warn");
    reveal_strlit("warn");
    reveal_strlit("WARN");
    reveal_strlit("Error");
    reveal_strlit("error");
    reveal_strlit("ERROR");
    reveal_strlit("Off");
    reveal_strlit("off");
    reveal_strlit("OFF");
}

/// Every level is read back from the lowercase and the uppercase form of its name, and from
/// any mix of cases where case is ignored.
pub proof fn law_level_aliases(l: LogLevel)
    ensures
        level_named(lower_text(level_name(l)), false) == Some(l),
        level_named(upper_text(level_name(l)), false) == Some(l),
        level_named(level_name(l), true) == Some(l),
        level_named(upper_text(level_name(l)), true) == Some(l),
{
    lemma_case_forms();
    lemma_name_literals();
    let vs = level_variants();
    let n = level_name(l);
    assert forall|k: int, x: Seq<char>| 0 <= k < 5 && vs[k] != l && (x == lower_text(n) || x == upper_text(n) || x == n)
        implies !#[trigger] names(level_name(vs[k]), x, false) by {
        let a = level_name(vs[k]);
        assert(a[0] != x[0] && lower_text(a)[0] != x[0] && upper_text(a)[0] != x[0]);
    }
    assert forall|k: int, x: Seq<char>| 0 <= k < 5 && vs[k] != l && (x == upper_text(n) || x == n)
        implies !#[trigger] names(level_name(vs[k]), x, true) by {
        let a = level_name(vs[k]);
        assert(lower_text(a)[0] != lower_text(x)[0]);
        assert(lower_text(lower_text(a))[0] != lower_text(x)[0]);
        assert(lower_text(upper_text(a))[0] != lower_text(x)[0]);
    }
    assert(names(n, lower_text(n), false));
    assert(names(n, upper_text(n), false));
    assert(names(n, n, true));
    assert(names(n, upper_text(n), true));
}

/// Every level filter is read back from the lowercase and the uppercase form of its name,
/// and from any mix of cases where case is ignored.
pub proof fn law_filter_aliases(l: LogLevelFilter)
    ensures
        filter_named(lower_text(filter_name(l)), false) == Some(l),
        filter_named(upper_text(filter_name(l)), false) == Some(l),
        filter_named(filter_name(l), true) == Some(l),
        filter_named(upper_text(filter_name(l)), true) == Some(l),
{
    lemma_case_forms();
    lemma_name_literals();
    let vs = filter_variants();
    let n = filter_name(l);
    assert forall|k: int, x: Seq<char>| 0 <= k < 6 && vs[k] != l && (x == lower_text(n) || x == upper_text(n) || x == n)
        implies !#[trigger] names(filter_name(vs[k]), x, false) by {
        let a = filter_name(vs[k]);
        assert(a[0] != x[0] && lower_text(a)[0] != x[0] && upper_text(a)[0] != x[0]);
    }
    assert forall|k: int, x: Seq<char>| 0 <= k < 6 && vs[k] != l && (x == upper_text(n) || x == n)
        implies !#[trigger] names(filter_name(vs[k]), x, true) by {
        let a = filter_name(vs[k]);
        assert(lower_text(a)[0] != lower_text(x)[0]);
        assert(lower_text(lower_text(a))[0] != lower_text(x)[0]);
        assert(lower_text(upper_text(a))[0] != lower_text(x)[0]);
    }
    assert(names(n, lower_text(n), false));
    assert(names(n, upper_text(n), false));
    assert(names(n, n, true));
    assert(names(n, upper_text(n), true));
}

} // verus!
