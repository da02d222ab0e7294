//! Human-readable rendering of a duration given in whole seconds.

use vstd::prelude::*;
use vstd::string::StringExecFns;

use crate::digits::dec_chars;
use crate::digits::push_dec;

verus! {

/// The rendering of `n` seconds: plain seconds under a minute, whole
/// minutes under an hour, and hours with leftover whole minutes above that.
pub open spec fn spec_format_duration(n: u64) -> Seq<char> {
    if n < 60 {
        dec_chars(n as nat) + " seconds"@
    } else if n < 3600 {
        dec_chars((n / 60) as nat) + " minutes"@
    } else {
        dec_chars((n / 3600) as nat) + " hours and "@ + dec_chars(((n % 3600) / 60) as nat)
            + " minutes"@
    }
}

/// Renders a duration of whole seconds for a result line.
pub fn format_duration(seconds: u64) -> (r: String)
    ensures
        r@ == spec_format_duration(seconds),
{
    let mut out = String::new();
    if seconds < 60 {
        push_dec(&mut out, seconds);
        out.append(" seconds");
    } else if seconds < 3600 {
        push_dec(&mut out, seconds / 60);
        out.append(" minutes");
    } else {
        push_dec(&mut out, seconds / 3600);
        out.append(" hours and ");
        push_dec(&mut out, (seconds % 3600) / 60);
        out.append(" minutes");
    }
    proof {
        assert(out@ =~= spec_format_duration(seconds));
    }
    out
}

} // verus!
