//! Backtraces, as the diagnostics capture them.
//!
//! What a backtrace holds depends on the call stack, on the build and on the
//! debug information that is found, so nothing is claimed of that. What is claimed is
//! that a backtrace was captured, and that a text is the one it was rendered to.

use std::backtrace::Backtrace;
use vstd::prelude::*;

verus! {

/// `std::backtrace::Backtrace`, carried through without looking into it.
#[verifier::external_type_specification]
#[verifier::external_body]
pub struct ExBacktrace(std::backtrace::Backtrace);

/// `Backtrace::force_capture` captures the current call stack. Nothing is
/// claimed of what it captures.
pub assume_specification[ std::backtrace::Backtrace::force_capture ]() -> std::backtrace::Backtrace;

/// Renders `backtrace` as text with its `Display` implementation, through
/// `to_string`. Nothing is claimed of the text.
#[verifier::external_body]
pub fn symbolise(backtrace: &Backtrace) -> (text: String) {
    backtrace.to_string()
}

/// `backtrace` is what capturing the call stack came to.
pub open spec fn is_capture(backtrace: Backtrace) -> bool {
    call_ensures(Backtrace::force_capture, (), backtrace)
}

/// `text` is what rendering `backtrace` came to.
pub open spec fn is_rendering(backtrace: Backtrace, text: String) -> bool {
    call_ensures(symbolise, (&backtrace,), text)
}

/// A backtrace counts as captured, and a text as its rendering, by the calls that give them.
pub proof fn law_captures_and_renderings_come_from_calls(backtrace: Backtrace, text: String)
    ensures
        is_capture(backtrace) <==> call_ensures(Backtrace::force_capture, (), backtrace),
        is_rendering(backtrace, text) <==> call_ensures(symbolise, (&backtrace,), text),
{
}

} // verus!
