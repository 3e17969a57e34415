//! Terminal UI helpers: colors and symbols. Kept dependency-free.

use vstd::prelude::*;

use crate::text::{push_str, string_of};

verus! {

pub const CHECK: &'static str = "✓";
pub const CROSS: &'static str = "✗";
pub const DOT_ON: &'static str = "●";
pub const DOT_OFF: &'static str = "○";

/// `s` between the ANSI escape `ESC[{code}m` and the reset `ESC[0m`.
pub open spec fn styled(code: Seq<char>, s: Seq<char>) -> Seq<char> {
    "\x1b["@ + code + "m"@ + s + "\x1b[0m"@
}

fn style(code: &str, s: &str) -> (r: String)
    ensures
        r@ == styled(code@, s@),
{
    let mut v: Vec<char> = Vec::new();
    push_str(&mut v, "\x1b[");
    push_str(&mut v, code);
    push_str(&mut v, "m");
    push_str(&mut v, s);
    push_str(&mut v, "\x1b[0m");
    string_of(v.as_slice())
}

pub fn green(s: &str) -> (r: String)
    ensures
        r@ == styled("32"@, s@),
{
    style("32", s)
}

pub fn dim(s: &str) -> (r: String)
    ensures
        r@ == styled("2"@, s@),
{
    style("2", s)
}

pub fn bold(s: &str) -> (r: String)
    ensures
        r@ == styled("1"@, s@),
{
    style("1", s)
}

pub fn yellow(s: &str) -> (r: String)
    ensures
        r@ == styled("33"@, s@),
{
    style("33", s)
}

/// `s` in red (used for failures).
pub fn red(s: &str) -> (r: String)
    ensures
        r@ == styled("31"@, s@),
{
    style("31", s)
}

} // verus!
