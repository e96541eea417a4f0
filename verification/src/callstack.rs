//! Call stacks: the frames that identify where an allocation came from, the
//! hash that stands for a stack, and the symbols of its frames.

pub use crate::stats::StackStats;
use crate::text::{decimal_string, decimal_text};
use crate::trace::{
    backtrace_ips, backtrace_symbols, frame_addresses, frame_symbols, resolve_symbols,
};
use backtrace::Backtrace;
use std::collections::HashMap;
use vstd::prelude::*;
use vstd::std_specs::hash::*;
use vstd::string::*;

verus! {

/// The number of frames at the top of a captured backtrace that belong to the
/// capture and to the profiler itself.
pub const TOP_FRAMES_TO_SKIP: usize = 4;

/// The most frames that a call stack keeps.
pub const MAX_NUM_FRAMES: usize = 30;

/// Stack hashes are below this number, the prime 2^61 - 1.
pub const HASH_MODULUS: u64 = 0x1fff_ffff_ffff_ffff;

/// The factor by which the hash grows from one frame to the next.
pub const HASH_MULTIPLIER: u64 = 0x100_0000_01b3;

/// The hash of a stack without frames.
pub const HASH_SEED: u64 = 17;

/// A symbol that a frame resolves to: a function name and, where known, the
/// source file and line. One frame has several symbols where functions were
/// inlined into it.
#[derive(Clone, Debug)]
pub struct FriendlySymbol {
    pub name: Option<String>,
    pub filename: Option<String>,
    pub lineno: Option<u32>,
}

/// The hash after one more frame.
pub open spec fn hash_step(acc: u64, frame: u64) -> u64 {
    ((acc as int * HASH_MULTIPLIER as int + frame as int) % (HASH_MODULUS as int)) as u64
}

/// The hash of a sequence of frames: a function of the frames alone.
pub open spec fn hash_frames(frames: Seq<u64>) -> u64
    decreases frames.len(),
{
    if frames.len() == 0 {
        HASH_SEED
    } else {
        hash_step(hash_frames(frames.drop_last()), frames.last())
    }
}

/// The frames that a call stack keeps of a raw backtrace: those after the
/// first `TOP_FRAMES_TO_SKIP`, and of these the first `MAX_NUM_FRAMES`.
pub open spec fn kept_frames(raw: Seq<u64>) -> Seq<u64> {
    if raw.len() <= TOP_FRAMES_TO_SKIP {
        Seq::empty()
    } else if raw.len() - TOP_FRAMES_TO_SKIP <= MAX_NUM_FRAMES {
        raw.subrange(TOP_FRAMES_TO_SKIP as int, raw.len() as int)
    } else {
        raw.subrange(TOP_FRAMES_TO_SKIP as int, TOP_FRAMES_TO_SKIP + MAX_NUM_FRAMES)
    }
}

/// An ordered, bounded sequence of instruction pointers, innermost first.
#[derive(Debug)]
pub struct StdCallstack {
    frames: Vec<u64>,
}

impl Clone for StdCallstack {
    fn clone(&self) -> (copy: Self)
        ensures
            copy@ == self@,
    {
        self.duplicate()
    }
}

impl View for StdCallstack {
    type V = Seq<u64>;

    closed spec fn view(&self) -> Seq<u64> {
        self.frames@
    }
}

impl StdCallstack {
    /// A stack keeps at most `MAX_NUM_FRAMES` frames.
    #[verifier::type_invariant]
    spec fn bounded(self) -> bool {
        self.frames@.len() <= MAX_NUM_FRAMES
    }

    /// The call stack of a raw list of instruction pointers.
    pub fn from_frames(raw: &Vec<u64>) -> (stack: Self)
        ensures
            stack@ == kept_frames(raw@),
    {
        let mut frames: Vec<u64> = Vec::new();
        let mut i: usize = TOP_FRAMES_TO_SKIP;
        while i < raw.len() && frames.len() < MAX_NUM_FRAMES
            invariant
                TOP_FRAMES_TO_SKIP <= i,
                frames.len() <= MAX_NUM_FRAMES,
                raw.len() < TOP_FRAMES_TO_SKIP ==> frames@ == Seq::<u64>::empty(),
                raw.len() >= TOP_FRAMES_TO_SKIP ==> i <= raw.len() && frames@ == raw@.subrange(
                    TOP_FRAMES_TO_SKIP as int,
                    i as int,
                ),
            decreases raw.len() - i,
        {
            frames.push(raw[i]);
            i += 1;
        }
        StdCallstack { frames }
    }

    /// The call stack of a captured backtrace.
    pub fn from_backtrace_unresolved(bt: &Backtrace) -> (stack: Self)
        ensures
            stack@ == kept_frames(backtrace_ips(*bt)),
    {
        let raw = frame_addresses(bt);
        Self::from_frames(&raw)
    }

    /// The number of frames.
    pub fn len(&self) -> (count: usize)
        ensures
            count == self@.len(),
            count <= MAX_NUM_FRAMES,
    {
        proof {
            use_type_invariant(self);
        }
        self.frames.len()
    }

    /// The frame at `index`, counted from the innermost.
    pub fn frame(&self, index: usize) -> (ip: u64)
        requires
            index < self@.len(),
        ensures
            ip == self@[index as int],
    {
        self.frames[index]
    }

    /// The hash that identifies this stack.
    pub fn compute_hash(&self) -> (hash: u64)
        ensures
            hash == hash_frames(self@),
            hash < HASH_MODULUS,
    {
        let mut acc: u64 = HASH_SEED;
        let mut i: usize = 0;
        while i < self.frames.len()
            invariant
                i <= self.frames.len(),
                acc == hash_frames(self.frames@.subrange(0, i as int)),
                acc < HASH_MODULUS,
            decreases self.frames.len() - i,
        {
            let frame: u64 = self.frames[i];
            assert(acc * HASH_MULTIPLIER <= 0x1fff_ffff_ffff_ffff * 0x100_0000_01b3) by (nonlinear_arith)
                requires
                    acc < 0x1fff_ffff_ffff_ffff,
                    HASH_MULTIPLIER == 0x100_0000_01b3,
            ;
            let wide: u128 = (acc as u128) * (HASH_MULTIPLIER as u128) + (frame as u128);
            let next: u64 = (wide % (HASH_MODULUS as u128)) as u64;
            assert(self.frames@.subrange(0, i + 1).drop_last() =~= self.frames@.subrange(
                0,
                i as int,
            ));
            acc = next;
            i += 1;
        }
        assert(self.frames@.subrange(0, i as int) =~= self.frames@);
        acc
    }

    /// A copy with the same frames.
    pub fn duplicate(&self) -> (copy: Self)
        ensures
            copy@ == self@,
    {
        proof {
            use_type_invariant(self);
        }
        let mut frames: Vec<u64> = Vec::new();
        let mut i: usize = 0;
        while i < self.frames.len()
            invariant
                i <= self.frames.len(),
                self.frames.len() <= MAX_NUM_FRAMES,
                frames@ == self.frames@.subrange(0, i as int),
            decreases self.frames.len() - i,
        {
            frames.push(self.frames[i]);
            i += 1;
        }
        StdCallstack { frames }
    }
}

/// The symbols of the frames seen so far, by instruction pointer. An entry is
/// written once, by whoever resolves its frame first, and never changes.
pub struct SymbolMap {
    map: HashMap<u64, Vec<FriendlySymbol>>,
}

impl View for SymbolMap {
    type V = Map<u64, Seq<FriendlySymbol>>;

    closed spec fn view(&self) -> Map<u64, Seq<FriendlySymbol>> {
        Map::new(|ip: u64| self.map@.contains_key(ip), |ip: u64| self.map@[ip]@)
    }
}

impl SymbolMap {
    /// An empty cache.
    pub fn new() -> (cache: Self)
        ensures
            cache@ == Map::<u64, Seq<FriendlySymbol>>::empty(),
    {
        SymbolMap { map: HashMap::new() }
    }

    /// The cache holds finitely many entries.
    pub proof fn lemma_finite(&self)
        ensures
            self@.dom().finite(),
    {
        broadcast use group_hash_axioms;

        assert(self@.dom() =~= self.map@.dom());
    }

    /// The number of instruction pointers in the cache.
    pub fn len(&self) -> (count: usize)
        ensures
            count == self@.dom().len(),
    {
        broadcast use group_hash_axioms;

        assert(self@.dom() =~= self.map@.dom());
        self.map.len()
    }

    /// Whether the cache holds the symbols of `ip`.
    pub fn contains(&self, ip: u64) -> (present: bool)
        ensures
            present == self@.contains_key(ip),
    {
        broadcast use group_hash_axioms;

        self.map.contains_key(&ip)
    }

    /// The symbols of `ip`, if the cache holds them.
    pub fn get(&self, ip: u64) -> (found: Option<&Vec<FriendlySymbol>>)
        ensures
            found is Some <==> self@.contains_key(ip),
            found matches Some(symbols) ==> symbols@ == self@[ip],
    {
        broadcast use group_hash_axioms;

        self.map.get(&ip)
    }

    /// Enters `symbols` for `ip` unless the cache has an entry for it: the
    /// first entry stays.
    pub fn insert_if_absent(&mut self, ip: u64, symbols: Vec<FriendlySymbol>)
        ensures
            final(self)@ == if old(self)@.contains_key(ip) {
                old(self)@
            } else {
                old(self)@.insert(ip, symbols@)
            },
    {
        broadcast use group_hash_axioms;

        if !self.map.contains_key(&ip) {
            self.map.insert(ip, symbols);
        }
    }
}

/// Whether `symbols` are those of the first among the first `upto` frames of
/// `trace` that has the instruction pointer `ip`.
pub open spec fn entered_from(
    trace: Backtrace,
    upto: int,
    ip: u64,
    symbols: Seq<FriendlySymbol>,
) -> bool {
    exists|i: int|
        0 <= i < upto && i < backtrace_ips(trace).len() && backtrace_ips(trace)[i] == ip && (
        forall|j: int| 0 <= j < i ==> backtrace_ips(trace)[j] != ip) && symbols
            == #[trigger] backtrace_symbols(trace, i)
}

/// Whether `after` is `before` grown by entries for the first `upto` frames
/// of the resolved backtrace `trace`: it holds every entry of `before`
/// unchanged, for each other instruction pointer among those frames the
/// symbols of the first frame that has it, and no other entry.
pub open spec fn populated(
    before: Map<u64, Seq<FriendlySymbol>>,
    after: Map<u64, Seq<FriendlySymbol>>,
    trace: Backtrace,
    upto: int,
) -> bool {
    &&& after.dom() == before.dom().union(backtrace_ips(trace).subrange(0, upto).to_set())
    &&& forall|ip: u64| #[trigger] before.contains_key(ip) ==> after[ip] == before[ip]
    &&& forall|ip: u64| #[trigger]
        after.contains_key(ip) && !before.contains_key(ip) ==> entered_from(
            trace,
            upto,
            ip,
            after[ip],
        )
}

/// Resolves the frames of `bt` and enters into `symbol_map` the symbols of
/// every frame that it does not hold yet. Entries that exist stay as they
/// are: no frame is resolved for the cache twice.
pub fn populate_symbol_map(bt: &mut Backtrace, symbol_map: &mut SymbolMap)
    ensures
        backtrace_ips(*final(bt)) == backtrace_ips(*old(bt)),
        populated(
            old(symbol_map)@,
            final(symbol_map)@,
            *final(bt),
            backtrace_ips(*final(bt)).len() as int,
        ),
{
    resolve_symbols(bt);
    let ips = frame_addresses(bt);
    let mut i: usize = 0;
    proof {
        assert(ips@.subrange(0, 0).to_set() =~= Set::<u64>::empty());
        assert(symbol_map@.dom() =~= symbol_map@.dom().union(Set::<u64>::empty()));
    }
    while i < ips.len()
        invariant
            i <= ips.len(),
            ips@ == backtrace_ips(*bt),
            backtrace_ips(*bt) == backtrace_ips(*old(bt)),
            populated(old(symbol_map)@, symbol_map@, *bt, i as int),
        decreases ips.len() - i,
    {
        let ip: u64 = ips[i];
        let ghost earlier = symbol_map@;
        if !symbol_map.contains(ip) {
            let symbols = frame_symbols(bt, i);
            symbol_map.insert_if_absent(ip, symbols);
        }
        proof {
            let done = ips@.subrange(0, i as int);
            let more = ips@.subrange(0, i + 1);
            assert(more =~= done.push(ip));
            done.lemma_push_to_set_commute(ip);
            assert(symbol_map@.dom() =~= old(symbol_map)@.dom().union(more.to_set()));
            assert forall|other: u64| #[trigger]
                symbol_map@.contains_key(other) && !old(symbol_map)@.contains_key(
                    other,
                ) implies entered_from(*bt, i + 1, other, symbol_map@[other]) by {
                if earlier.contains_key(other) {
                    assert(entered_from(*bt, i as int, other, earlier[other]));
                    let at = choose|at: int|
                        0 <= at < i && at < ips@.len() && ips@[at] == other && (forall|j: int|
                            0 <= j < at ==> ips@[j] != other) && earlier[other]
                            == #[trigger] backtrace_symbols(*bt, at);
                    assert(symbol_map@[other] == backtrace_symbols(*bt, at));
                } else {
                    // The frame at `i` is the first with this instruction
                    // pointer: an earlier one would have entered it.
                    assert(other == ip);
                    assert forall|j: int| 0 <= j < i implies ips@[j] != ip by {
                        if ips@[j] == ip {
                            assert(done[j] == ip);
                            assert(done.to_set().contains(ip));
                        }
                    }
                    assert(symbol_map@[other] == backtrace_symbols(*bt, i as int));
                }
            }
        }
        i += 1;
    }
    assert(ips@.subrange(0, i as int) =~= ips@);
}

/// The name under which a symbol is printed.
pub open spec fn symbol_name(symbol: FriendlySymbol) -> Seq<char> {
    match symbol.name {
        Some(name) => name@,
        None => "<unknown>"@,
    }
}

/// The line number under which a symbol is printed; zero where none is known.
pub open spec fn symbol_line(symbol: FriendlySymbol) -> nat {
    match symbol.lineno {
        Some(line) => line as nat,
        None => 0,
    }
}

/// The text of one symbol: a line with its name and, where the file name is
/// asked for and known, a second line with the file and the line number.
pub open spec fn symbol_text(symbol: FriendlySymbol, with_filename: bool) -> Seq<char> {
    let head = "  "@ + symbol_name(symbol) + "\n"@;
    match symbol.filename {
        Some(file) if with_filename => head + "      at "@ + file@ + ":"@ + decimal_text(
            symbol_line(symbol),
        ) + "\n"@,
        _ => head,
    }
}

/// The texts of several symbols, one after the other.
pub open spec fn symbols_text(symbols: Seq<FriendlySymbol>, with_filename: bool) -> Seq<char>
    decreases symbols.len(),
{
    if symbols.len() == 0 {
        Seq::empty()
    } else {
        symbols_text(symbols.drop_last(), with_filename) + symbol_text(
            symbols.last(),
            with_filename,
        )
    }
}

/// The text of a frame: that of its symbols, or a line with the instruction
/// pointer itself where the cache has no symbol for it.
pub open spec fn frame_text(
    cache: Map<u64, Seq<FriendlySymbol>>,
    ip: u64,
    with_filename: bool,
) -> Seq<char> {
    if cache.contains_key(ip) && cache[ip].len() > 0 {
        symbols_text(cache[ip], with_filename)
    } else {
        "  <unresolved "@ + decimal_text(ip as nat) + ">\n"@
    }
}

/// The text of a stack: that of its frames, innermost first.
pub open spec fn stack_text(
    cache: Map<u64, Seq<FriendlySymbol>>,
    frames: Seq<u64>,
    with_filename: bool,
) -> Seq<char>
    decreases frames.len(),
{
    if frames.len() == 0 {
        Seq::empty()
    } else {
        stack_text(cache, frames.drop_last(), with_filename) + frame_text(
            cache,
            frames.last(),
            with_filename,
        )
    }
}

fn render_symbol(symbol: &FriendlySymbol, with_filename: bool) -> (text: String)
    ensures
        text@ == symbol_text(*symbol, with_filename),
{
    let mut text = String::from_str("  ");
    match &symbol.name {
        Some(name) => text.append(name.as_str()),
        None => text.append("<unknown>"),
    }
    text.append("\n");
    if with_filename {
        match &symbol.filename {
            Some(file) => {
                let line: u64 = match symbol.lineno {
                    Some(line) => line as u64,
                    None => 0,
                };
                text.append("      at ");
                text.append(file.as_str());
                text.append(":");
                text.append(decimal_string(line).as_str());
                text.append("\n");
            },
            None => {},
        }
    }
    text
}

fn render_symbols(symbols: &Vec<FriendlySymbol>, with_filename: bool) -> (text: String)
    ensures
        text@ == symbols_text(symbols@, with_filename),
{
    let mut text = String::new();
    let mut i: usize = 0;
    while i < symbols.len()
        invariant
            i <= symbols.len(),
            text@ == symbols_text(symbols@.subrange(0, i as int), with_filename),
        decreases symbols.len() - i,
    {
        let line = render_symbol(&symbols[i], with_filename);
        text.append(line.as_str());
        assert(symbols@.subrange(0, i + 1).drop_last() =~= symbols@.subrange(0, i as int));
        i += 1;
    }
    assert(symbols@.subrange(0, i as int) =~= symbols@);
    text
}

fn render_frame(cache: &SymbolMap, ip: u64, with_filename: bool) -> (text: String)
    ensures
        text@ == frame_text(cache@, ip, with_filename),
{
    match cache.get(ip) {
        Some(symbols) if symbols.len() > 0 => render_symbols(symbols, with_filename),
        _ => {
            let mut text = String::from_str("  <unresolved ");
            text.append(decimal_string(ip).as_str());
            text.append(">\n");
            text
        },
    }
}

impl StdCallstack {
    fn render(&self, symbol_map: &SymbolMap, with_filename: bool) -> (text: String)
        ensures
            text@ == stack_text(symbol_map@, self@, with_filename),
    {
        let mut text = String::new();
        let mut i: usize = 0;
        while i < self.frames.len()
            invariant
                i <= self.frames.len(),
                text@ == stack_text(symbol_map@, self.frames@.subrange(0, i as int), with_filename),
            decreases self.frames.len() - i,
        {
            let lines = render_frame(symbol_map, self.frames[i], with_filename);
            text.append(lines.as_str());
            assert(self.frames@.subrange(0, i + 1).drop_last() =~= self.frames@.subrange(
                0,
                i as int,
            ));
            i += 1;
        }
        assert(self.frames@.subrange(0, i as int) =~= self.frames@);
        text
    }

    /// The stack as text, one line for each symbol of each frame.
    pub fn with_symbols(&self, symbol_map: &SymbolMap) -> (text: String)
        ensures
            text@ == stack_text(symbol_map@, self@, false),
    {
        self.render(symbol_map, false)
    }

    /// The stack as text, each symbol with its source file and line where
    /// they are known.
    pub fn with_symbols_and_filename(&self, symbol_map: &SymbolMap) -> (text: String)
        ensures
            text@ == stack_text(symbol_map@, self@, true),
    {
        self.render(symbol_map, true)
    }
}

} // verus!
