//! Builtin variables: substitution tokens whose value is computed from the
//! context of a run rather than taken from a parameter.

use vstd::prelude::*;

verus! {

/// What `chrono` renders for the moment `secs` seconds after the Unix epoch,
/// in UTC, under the format `pattern`; `None` where `chrono` cannot
/// represent the moment.
pub uninterp spec fn utc_text(secs: i64, pattern: Seq<char>) -> Option<Seq<char>>;

/// Calls `chrono::DateTime::from_timestamp` for the moment `secs` seconds
/// after the Unix epoch, in UTC, and renders it with `DateTime::format` under
/// `pattern`. Taken on trust: `from_timestamp` returns `None` for a number of
/// seconds out of its range and a moment otherwise; rendering under `%Y` (the
/// year) and `%B` (the full name of the month, in English), the two patterns
/// that are let in, does not fail; and the result depends on the arguments
/// alone. `utc_text` is the name of that result.
#[verifier::external_body]
fn format_utc(secs: i64, pattern: &str) -> (r: Option<String>)
    requires
        pattern@ == "%Y"@ || pattern@ == "%B"@,
    ensures
        crate::text::opt_text(r) == utc_text(secs, pattern@),
{
    match chrono::DateTime::from_timestamp(secs, 0) {
        Some(moment) => Some(moment.format(pattern).to_string()),
        None => None,
    }
}

/// What a run knows of its surroundings.
#[derive(Clone, Copy, Debug, PartialEq, Eq)]
pub struct Context {
    /// The clock: seconds since the Unix epoch.
    pub unix_seconds: i64,
}

/// How the value of a builtin variable is computed.
#[derive(Clone, Copy, Debug, PartialEq, Eq, Structural)]
pub enum Resolver {
    /// The year of the clock, in UTC.
    Year,
    /// The full name of the month of the clock, in UTC.
    MonthName,
}

/// A builtin variable: the key of its token, and how its value is computed.
#[derive(Clone, Debug, PartialEq, Eq)]
pub struct BuiltinVar {
    pub key: String,
    pub resolver: Resolver,
}

/// The mathematical content of a [`BuiltinVar`].
pub struct BuiltinView {
    pub key: Seq<char>,
    pub resolver: Resolver,
}

impl View for BuiltinVar {
    type V = BuiltinView;

    open spec fn view(&self) -> BuiltinView {
        BuiltinView { key: self.key@, resolver: self.resolver }
    }
}

/// The value of a builtin variable in a context; `None` where the clock is
/// out of the range of dates.
pub open spec fn resolved(resolver: Resolver, ctx: Context) -> Option<Seq<char>> {
    match resolver {
        Resolver::Year => utc_text(ctx.unix_seconds, "%Y"@),
        Resolver::MonthName => utc_text(ctx.unix_seconds, "%B"@),
    }
}

impl Context {
    /// The context whose clock shows `unix_seconds`.
    pub fn at(unix_seconds: i64) -> (r: Context)
        ensures
            r.unix_seconds == unix_seconds,
    {
        Context { unix_seconds }
    }

    /// The context whose clock shows `millis` milliseconds since the Unix
    /// epoch: the whole seconds of that time.
    pub fn from_millis(millis: u64) -> (r: Context)
        ensures
            r.unix_seconds == millis / 1000,
    {
        Context { unix_seconds: (millis / 1000) as i64 }
    }
}

impl BuiltinVar {
    /// The value of this variable for the text `text` in the context `ctx`.
    /// The two resolvers read the clock only.
    pub fn resolve(&self, ctx: &Context, text: &str) -> (r: Option<String>)
        ensures
            crate::text::opt_text(r) == resolved(self.resolver, *ctx),
    {
        match self.resolver {
            Resolver::Year => format_utc(ctx.unix_seconds, "%Y"),
            Resolver::MonthName => format_utc(ctx.unix_seconds, "%B"),
        }
    }
}

/// The builtin variables of every run: `year` and `month_name`.
pub open spec fn standard_builtins() -> Seq<BuiltinView> {
    seq![
        BuiltinView { key: "year"@, resolver: Resolver::Year },
        BuiltinView { key: "month_name"@, resolver: Resolver::MonthName },
    ]
}

/// The views of the builtin variables in `vars`.
pub open spec fn builtin_views(vars: Seq<BuiltinVar>) -> Seq<BuiltinView> {
    vars.map_values(|b: BuiltinVar| b@)
}

/// The builtin variables of every run: `year` and `month_name`.
pub fn default_builtins() -> (r: Vec<BuiltinVar>)
    ensures
        builtin_views(r@) == standard_builtins(),
{
    let mut vars: Vec<BuiltinVar> = Vec::new();
    vars.push(BuiltinVar { key: String::from_str("year"), resolver: Resolver::Year });
    vars.push(BuiltinVar { key: String::from_str("month_name"), resolver: Resolver::MonthName });
    assert(builtin_views(vars@) =~= standard_builtins());
    vars
}

} // verus!
