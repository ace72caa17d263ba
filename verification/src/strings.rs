//! The strings shown by the terminal front end, in a plain form and in a form that uses
//! Unicode characters, for terminals that support them.

use vstd::prelude::*;

verus! {

/// Index of a string in the table.
pub type StringId = usize;

#[allow(non_upper_case_globals)]
pub const PeripheralsTab: StringId = 0;

#[allow(non_upper_case_globals)]
pub const DotDotDot: StringId = 1;

#[allow(non_upper_case_globals)]
pub const HelloMsg: StringId = 2;

#[allow(non_upper_case_globals)]
pub const StartupMsg: StringId = 3;

/// Number of strings in the table.
pub const STRING_COUNT: usize = 4;

/// The table: for each string, its plain form and its Unicode form.
pub open spec fn string_table(id: StringId, unicode: bool) -> Seq<char> {
    if id == PeripheralsTab {
        "FOO"@
    } else if id == DotDotDot {
        if unicode {
            "\u{2026}"@
        } else {
            ".."@
        }
    } else if id == HelloMsg {
        "Hello!\n"@
    } else {
        "Starting up the LC-3 simulator.\n"@
    }
}

/// The string `id`, in its Unicode form when the platform supports Unicode.
pub fn get_string(id: StringId, unicode: bool) -> (s: &'static str)
    requires
        id < STRING_COUNT,
    ensures
        s@ == string_table(id, unicode),
{
    if id == PeripheralsTab {
        "FOO"
    } else if id == DotDotDot {
        if unicode {
            "\u{2026}"
        } else {
            ".."
        }
    } else if id == HelloMsg {
        "Hello!\n"
    } else {
        "Starting up the LC-3 simulator.\n"
    }
}

/// Whether strings are shown in their Unicode form: by default on every system but Windows,
/// unless the environment turns it off; the environment can also turn it on.
pub fn supports_unicode(windows: bool, enabled: bool, disabled: bool) -> (b: bool)
    ensures
        b == ((!windows || enabled) && !disabled),
{
    (!windows || enabled) && !disabled
}

} // verus!
