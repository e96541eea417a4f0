//! Backtraces of the `backtrace` crate: capturing one, reading the addresses
//! of its frames, and resolving them to symbols.

use crate::callstack::FriendlySymbol;
use backtrace::Backtrace;
use vstd::prelude::*;

verus! {

/// `backtrace::Backtrace`: a captured stack, opaque but for what
/// `backtrace_ips` and `backtrace_symbols` name.
#[verifier::external_type_specification]
#[verifier::external_body]
pub struct ExBacktrace(Backtrace);

/// The instruction pointers of a backtrace's frames, innermost frame first.
pub uninterp spec fn backtrace_ips(bt: Backtrace) -> Seq<u64>;

/// The symbols that a backtrace holds for the frame at `index`, outermost
/// function last; none before the backtrace was resolved.
pub uninterp spec fn backtrace_symbols(bt: Backtrace, index: int) -> Seq<FriendlySymbol>;

/// `Backtrace::new_unresolved`: the frames of the calling thread's stack,
/// without symbols. Nothing is promised of what the stack holds.
#[verifier::external_body]
pub(crate) fn capture_unresolved() -> Backtrace {
    Backtrace::new_unresolved()
}

/// `Backtrace::frames` and, of each frame, `BacktraceFrame::ip`: the
/// instruction pointers of all frames, in the order of the frames.
#[verifier::external_body]
pub(crate) fn frame_addresses(bt: &Backtrace) -> (ips: Vec<u64>)
    ensures
        ips@ == backtrace_ips(*bt),
{
    bt.frames().iter().map(|frame| frame.ip() as u64).collect()
}

/// `Backtrace::resolve`: looks up the symbols of every frame. The frames and
/// their instruction pointers stay as they are.
#[verifier::external_body]
pub(crate) fn resolve_symbols(bt: &mut Backtrace)
    ensures
        backtrace_ips(*final(bt)) == backtrace_ips(*old(bt)),
{
    bt.resolve()
}

/// `BacktraceFrame::symbols` of the frame at `index`, each symbol with its
/// name (`BacktraceSymbol::name`), file (`filename`) and line (`lineno`):
/// the symbols that the backtrace holds for the frame. Which symbols a
/// resolved frame has depends on the program's debug information, so nothing
/// more is promised of them.
#[verifier::external_body]
pub(crate) fn frame_symbols(bt: &Backtrace, index: usize) -> (symbols: Vec<FriendlySymbol>)
    requires
        index < backtrace_ips(*bt).len(),
    ensures
        symbols@ == backtrace_symbols(*bt, index as int),
{
    bt.frames()[index].symbols().iter().map(|symbol| FriendlySymbol {
        name: symbol.name().map(|name| name.to_string()),
        filename: symbol.filename().map(|path| path.display().to_string()),
        lineno: symbol.lineno(),
    }).collect()
}

} // verus!
