//! Resolved stack frames and how they are printed, the demangling of Rust
//! symbol names, and the resolution of instruction addresses through the
//! DWARF debug information of the target binary (`addr2line` over `gimli` and
//! `object`), with a cache so that each address is looked up once.
use crate::text::{dec_chars, dec_string, hex_chars, hex_string, pad_left, pad_right, push_chars, push_dec, push_padded_left, push_padded_right, push_str};
use addr2line::fallible_iterator::FallibleIterator;
use addr2line::gimli::{self, EndianRcSlice, RunTimeEndian};
use object::{Object, ObjectSection};
use std::collections::HashMap;
use std::rc::Rc;
use vstd::prelude::*;

verus! {

/// Source code location.
pub struct SourceLocation {
    /// Source file, when known.
    pub file: Option<String>,
    /// Line number, when known.
    pub line: Option<u32>,
    /// Column number, when known.
    pub column: Option<u32>,
}

/// An inlined frame within a resolved frame.
pub struct InlinedFrame {
    /// Demangled function name.
    pub function: String,
    /// Where in the source, when known.
    pub location: Option<SourceLocation>,
}

/// A resolved stack frame (may contain multiple inlined frames).
pub struct ResolvedFrame {
    /// The address that was resolved.
    pub addr: u64,
    /// The frames at that address, innermost first.
    pub frames: Vec<InlinedFrame>,
}

// =============================================================================
// SPECIFICATION
// =============================================================================

/// The function name a symbol demangles to, printed without the hash suffix.
pub uninterp spec fn demangled(symbol: Seq<char>) -> Seq<char>;

/// The `at file:line:col` suffix of an inlined frame.
pub open spec fn location_text(loc: Option<SourceLocation>) -> Seq<char> {
    match loc {
        Some(l) => match l.file {
            Some(file) => "\n                      at "@ + file@ + match l.line {
                Some(line) => ":"@ + dec_string(line as nat) + match l.column {
                    Some(col) => ":"@ + dec_string(col as nat),
                    None => seq![],
                },
                None => seq![],
            },
            None => seq![],
        },
        None => seq![],
    }
}

/// The line printed for the inlined frame at `idx` of a frame numbered
/// `frame_num` at `addr`.
pub open spec fn inlined_text(idx: int, frame_num: usize, addr: u64, f: InlinedFrame) -> Seq<char> {
    let prefix = if idx == 0 {
        "#"@ + pad_right(dec_string(frame_num as nat), ' ', 2)
    } else {
        "    "@
    };
    prefix + " 0x"@ + pad_left(hex_string(addr as nat), '0', 16) + " "@ + f.function@
        + location_text(f.location)
}

/// The texts of the first `k` inlined frames, one per line.
pub open spec fn frames_text(frames: Seq<InlinedFrame>, k: int, frame_num: usize, addr: u64) -> Seq<
    char,
>
    decreases k,
{
    if k <= 0 {
        seq![]
    } else if k == 1 {
        inlined_text(0, frame_num, addr, frames[0])
    } else {
        frames_text(frames, k - 1, frame_num, addr) + "\n"@ + inlined_text(
            k - 1,
            frame_num,
            addr,
            frames[k - 1],
        )
    }
}

impl ResolvedFrame {
    /// The printed form of this frame as frame number `frame_num`.
    pub open spec fn spec_format(&self, frame_num: usize) -> Seq<char> {
        frames_text(self.frames@, self.frames@.len() as int, frame_num, self.addr)
    }
}

/// A resolved frame at `addr` from the frames found there; when none were
/// found, a single frame named `<unknown>` without location.
pub open spec fn resolved_from(addr: u64, found: Seq<InlinedFrame>, r: ResolvedFrame) -> bool {
    &&& r.addr == addr
    &&& if found.len() == 0 {
        r.frames@.len() == 1 && r.frames@[0].function@ == "<unknown>"@ && r.frames@[0].location
            is None
    } else {
        r.frames@ == found
    }
}

// =============================================================================
// IMPLEMENTATION
// =============================================================================

/// Demangles a Rust symbol with `rustc_demangle::demangle`, printed in its
/// alternate form (without the hash suffix).
///
/// What the demangler produces is named by [`demangled`] and not stated
/// further here.
#[verifier::external_body]
fn demangle_alternate(symbol: &str) -> (r: String)
    ensures
        r@ == demangled(symbol@),
{
    format!("{:#}", rustc_demangle::demangle(symbol))
}

/// Demangles a Rust symbol name.
pub fn demangle_symbol(symbol: &str) -> (r: String)
    ensures
        r@ == demangled(symbol@),
{
    demangle_alternate(symbol)
}

/// The resolved frame at `addr` from the inlined frames found there.
pub fn resolved_frame(addr: u64, found: Vec<InlinedFrame>) -> (r: ResolvedFrame)
    ensures
        resolved_from(addr, found@, r),
{
    if found.len() == 0 {
        let mut frames: Vec<InlinedFrame> = Vec::new();
        frames.push(InlinedFrame { function: "<unknown>".to_string(), location: None });
        proof {
            reveal_strlit("<unknown>");
        }
        ResolvedFrame { addr, frames }
    } else {
        ResolvedFrame { addr, frames: found }
    }
}

fn push_location(out: &mut String, loc: &Option<SourceLocation>)
    ensures
        final(out)@ == old(out)@ + location_text(*loc),
{
    if let Some(l) = loc {
        if let Some(file) = &l.file {
            push_str(out, "\n                      at ");
            push_str(out, file.as_str());
            if let Some(line) = l.line {
                push_str(out, ":");
                push_dec(out, line as u64);
                if let Some(col) = l.column {
                    push_str(out, ":");
                    push_dec(out, col as u64);
                }
            }
        }
    }
    assert(final(out)@ =~= old(out)@ + location_text(*loc));
}

impl ResolvedFrame {
    /// The frame for display: one line per inlined frame, the first numbered
    /// `#n`, each with the address and the function, and the source location
    /// on a line of its own where known.
    pub fn format(&self, frame_num: usize) -> (out: String)
        ensures
            out@ == self.spec_format(frame_num),
    {
        let mut output = String::new();
        let mut idx: usize = 0;
        let hex = hex_chars(self.addr);
        let num = dec_chars(frame_num as u64);
        while idx < self.frames.len()
            invariant
                idx <= self.frames.len(),
                hex@ == hex_string(self.addr as nat),
                num@ == dec_string(frame_num as nat),
                output@ == frames_text(self.frames@, idx as int, frame_num, self.addr) + (if 0 < idx
                    < self.frames.len() {
                    "\n"@
                } else {
                    seq![]
                }),
            decreases self.frames.len() - idx,
        {
            let ghost before = output@;
            let inlined = &self.frames[idx];
            if idx == 0 {
                push_str(&mut output, "#");
                push_padded_right(&mut output, num.as_slice(), ' ', 2);
            } else {
                push_str(&mut output, "    ");
            }
            push_str(&mut output, " 0x");
            push_padded_left(&mut output, hex.as_slice(), '0', 16);
            push_str(&mut output, " ");
            push_str(&mut output, inlined.function.as_str());
            push_location(&mut output, &inlined.location);
            let ghost line = inlined_text(idx as int, frame_num, self.addr, *inlined);
            assert(output@ =~= before + line);
            if idx + 1 < self.frames.len() {
                push_str(&mut output, "\n");
            }
            proof {
                let k = idx + 1;
                if idx == 0 {
                    assert(frames_text(self.frames@, 1, frame_num, self.addr) == line);
                } else {
                    assert(frames_text(self.frames@, k as int, frame_num, self.addr) == frames_text(
                        self.frames@,
                        idx as int,
                        frame_num,
                        self.addr,
                    ) + "\n"@ + line);
                }
            }
            idx += 1;
            assert(output@ =~= frames_text(self.frames@, idx as int, frame_num, self.addr) + (if 0
                < idx < self.frames.len() {
                "\n"@
            } else {
                seq![]
            }));
        }
        output
    }
}

// =============================================================================
// DWARF RESOLUTION
// =============================================================================

/// The `addr2line` context of one binary.
#[verifier::external_body]
struct DwarfHandle {
    context: addr2line::Context<EndianRcSlice<RunTimeEndian>>,
}

/// The debug information of one binary: its `addr2line` context, and the
/// bytes it was loaded from. Only `load_dwarf` makes one.
pub struct DwarfContext {
    handle: DwarfHandle,
    binary: Ghost<Seq<u8>>,
}

impl DwarfContext {
    /// The bytes of the binary the context was loaded from.
    pub closed spec fn binary(&self) -> Seq<u8> {
        self.binary@
    }
}

/// Why the debug information of a binary could not be loaded.
#[derive(Debug, Clone, Copy, PartialEq, Eq, Structural)]
pub enum DwarfError {
    /// The bytes are not an object file.
    ObjectParse,
    /// The DWARF sections could not be read.
    DwarfLoad,
}

impl DwarfError {
    /// The message of the error.
    pub fn message(&self) -> (m: String)
        ensures
            m@ == match *self {
                DwarfError::ObjectParse => "Failed to parse object file"@,
                DwarfError::DwarfLoad => "Failed to load DWARF debug information"@,
            },
    {
        match self {
            DwarfError::ObjectParse => {
                proof {
                    reveal_strlit("Failed to parse object file");
                }
                "Failed to parse object file".to_string()
            },
            DwarfError::DwarfLoad => {
                proof {
                    reveal_strlit("Failed to load DWARF debug information");
                }
                "Failed to load DWARF debug information".to_string()
            },
        }
    }
}

/// What one lookup found for one inlined frame: the demangled function
/// name, when the debug information has one, and the source location.
pub type FrameLookup = (Option<String>, Option<SourceLocation>);

/// A lookup as plain values: the function name, and the file, line and
/// column of the location.
pub type LookupView = (Option<Seq<char>>, Option<(Option<Seq<char>>, Option<u32>, Option<u32>)>);

/// A source location as plain values.
pub open spec fn location_view(l: Option<SourceLocation>) -> Option<(Option<Seq<char>>, Option<u32>, Option<u32>)> {
    match l {
        Some(loc) => Some(
            (
                match loc.file {
                    Some(f) => Some(f@),
                    None => None,
                },
                loc.line,
                loc.column,
            ),
        ),
        None => None,
    }
}

/// A lookup as plain values.
pub open spec fn lookup_view(f: FrameLookup) -> LookupView {
    (
        match f.0 {
            Some(n) => Some(n@),
            None => None,
        },
        location_view(f.1),
    )
}

/// Lookups as plain values.
pub open spec fn lookups_view(s: Seq<FrameLookup>) -> Seq<LookupView> {
    Seq::new(s.len(), |i: int| lookup_view(s[i]))
}

/// Whether the debug information of a binary loads: `None` when it does,
/// else the failure. A function of the bytes alone.
pub uninterp spec fn dwarf_load_error(binary: Seq<u8>) -> Option<DwarfError>;

/// The frames that the debug information of a binary holds at an address,
/// innermost first. A function of the bytes and the address alone.
pub uninterp spec fn dwarf_frames(binary: Seq<u8>, addr: u64) -> Seq<LookupView>;

/// Loads the debug information of an object file with `object::File::parse`,
/// `gimli::Dwarf::load` (each section read with `section_by_name` and
/// `uncompressed_data`, a missing one read as empty) and
/// `addr2line::Context::from_dwarf`.
///
/// Whether it loads, and which error comes, is named by `dwarf_load_error`;
/// the context keeps the bytes it was loaded from.
#[verifier::external_body]
fn load_dwarf(binary: &[u8]) -> (r: Result<DwarfContext, DwarfError>)
    ensures
        r matches Ok(c) ==> dwarf_load_error(binary@) is None && c.binary() == binary@,
        r matches Err(e) ==> dwarf_load_error(binary@) == Some(e),
{
    let obj = match object::File::parse(binary) {
        Ok(o) => o,
        Err(_) => return Err(DwarfError::ObjectParse),
    };
    let endian = if obj.is_little_endian() { RunTimeEndian::Little } else { RunTimeEndian::Big };
    let load = |id: gimli::SectionId| -> Result<EndianRcSlice<RunTimeEndian>, gimli::Error> {
        let data = obj.section_by_name(id.name()).and_then(|s| s.uncompressed_data().ok()).unwrap_or_default();
        Ok(EndianRcSlice::new(Rc::from(&*data), endian))
    };
    match gimli::Dwarf::load(load).and_then(addr2line::Context::from_dwarf) {
        Ok(context) => Ok(DwarfContext { handle: DwarfHandle { context }, binary: Ghost(binary@) }),
        Err(_) => Err(DwarfError::DwarfLoad),
    }
}

/// The frames at `addr` by `addr2line::Context::find_frames` (with the
/// split-DWARF loads skipped), innermost first, up to the first frame that
/// cannot be read; each function name demangled with `FunctionName::demangle`.
/// What it finds is named by `dwarf_frames` of the bytes the context was
/// loaded from.
#[verifier::external_body]
fn frames_at(dwarf: &DwarfContext, addr: u64) -> (r: Vec<FrameLookup>)
    ensures
        lookups_view(r@) == dwarf_frames(dwarf.binary(), addr),
{
    match dwarf.handle.context.find_frames(addr).skip_all_loads() {
        Ok(frames) => frames.iterator().map_while(Result::ok).map(|f| (
            f.function.and_then(|n| n.demangle().ok().map(|s| s.to_string())),
            f.location.map(|l| SourceLocation { file: l.file.map(|s| s.to_string()), line: l.line, column: l.column }),
        )).collect(),
        Err(_) => Vec::new(),
    }
}

/// The function name of a lookup: `<unknown>` when there is none.
pub open spec fn lookup_name(l: LookupView) -> Seq<char> {
    match l.0 {
        Some(n) => n,
        None => "<unknown>"@,
    }
}

/// The inlined frames `fs` of the lookups `raw`: a frame without a function
/// name is named `<unknown>`, and the locations are kept.
pub open spec fn named_frames(raw: Seq<LookupView>, fs: Seq<InlinedFrame>) -> bool {
    &&& fs.len() == raw.len()
    &&& forall|i: int|
        0 <= i < raw.len() ==> location_view((#[trigger] fs[i]).location) == raw[i].1 && fs[i].function@
            == lookup_name(raw[i])
}

/// `a` and `b` are the same resolved frame.
pub open spec fn same_frame(a: ResolvedFrame, b: ResolvedFrame) -> bool {
    a.addr == b.addr && a.frames@ == b.frames@
}

/// The resolved frame at `addr` from what a lookup found there.
pub open spec fn frame_from_lookup_spec(addr: u64, raw: Seq<LookupView>, r: ResolvedFrame) -> bool {
    exists|fs: Seq<InlinedFrame>| #[trigger] named_frames(raw, fs) && resolved_from(addr, fs, r)
}

/// The innermost frame of the resolved frame at an address whose lookups
/// are `raw`.
pub open spec fn first_frame_of(raw: Seq<LookupView>, g: InlinedFrame) -> bool {
    if raw.len() == 0 {
        g.function@ == "<unknown>"@ && g.location is None
    } else {
        g.function@ == lookup_name(raw[0]) && location_view(g.location) == raw[0].1
    }
}

proof fn lemma_same_frame_spec(addr: u64, raw: Seq<LookupView>, a: ResolvedFrame, b: ResolvedFrame)
    requires
        frame_from_lookup_spec(addr, raw, a),
        same_frame(a, b),
    ensures
        frame_from_lookup_spec(addr, raw, b),
{
    let fs = choose|fs: Seq<InlinedFrame>| #[trigger] named_frames(raw, fs) && resolved_from(addr, fs, a);
    assert(named_frames(raw, fs) && resolved_from(addr, fs, b));
}

fn clone_opt_string(o: &Option<String>) -> (r: Option<String>)
    ensures
        r == *o,
{
    match o {
        Some(s) => Some(s.clone()),
        None => None,
    }
}

fn clone_location(o: &Option<SourceLocation>) -> (r: Option<SourceLocation>)
    ensures
        r == *o,
{
    match o {
        Some(l) => Some(SourceLocation { file: clone_opt_string(&l.file), line: l.line, column: l.column }),
        None => None,
    }
}

fn clone_resolved(f: &ResolvedFrame) -> (r: ResolvedFrame)
    ensures
        same_frame(r, *f),
{
    let mut frames: Vec<InlinedFrame> = Vec::new();
    let mut i: usize = 0;
    while i < f.frames.len()
        invariant
            i <= f.frames.len(),
            frames@ == f.frames@.subrange(0, i as int),
        decreases f.frames.len() - i,
    {
        let g = &f.frames[i];
        frames.push(InlinedFrame { function: g.function.clone(), location: clone_location(&g.location) });
        assert(frames@ =~= f.frames@.subrange(0, i + 1));
        i += 1;
    }
    assert(frames@ =~= f.frames@);
    ResolvedFrame { addr: f.addr, frames }
}

/// The resolved frame at `addr` from what a lookup found there: one inlined
/// frame per lookup (unnamed ones called `<unknown>`), or a single
/// `<unknown>` frame when nothing was found.
pub fn frame_from_lookup(addr: u64, raw: Vec<FrameLookup>) -> (r: ResolvedFrame)
    ensures
        frame_from_lookup_spec(addr, lookups_view(raw@), r),
{
    let mut found: Vec<InlinedFrame> = Vec::new();
    let mut i: usize = 0;
    proof {
        reveal_strlit("<unknown>");
    }
    while i < raw.len()
        invariant
            i <= raw.len(),
            named_frames(lookups_view(raw@).subrange(0, i as int), found@),
        decreases raw.len() - i,
    {
        let function = match &raw[i].0 {
            Some(n) => n.clone(),
            None => "<unknown>".to_string(),
        };
        found.push(InlinedFrame { function, location: clone_location(&raw[i].1) });
        let ghost lv = lookups_view(raw@);
        assert(lv[i as int] == lookup_view(raw@[i as int]));
        assert(named_frames(lv.subrange(0, i + 1), found@)) by {
            assert forall|k: int| 0 <= k < i + 1 implies location_view((#[trigger] found@[k]).location)
                == lv.subrange(0, i + 1)[k].1 && found@[k].function@ == lookup_name(lv.subrange(0, i + 1)[k]) by {
                if k < i {
                    assert(lv.subrange(0, i + 1)[k] == lv.subrange(0, i as int)[k]);
                }
            }
        }
        i += 1;
    }
    assert(lookups_view(raw@).subrange(0, raw.len() as int) =~= lookups_view(raw@));
    let ghost fs = found@;
    let r = resolved_frame(addr, found);
    assert(named_frames(lookups_view(raw@), fs) && resolved_from(addr, fs, r));
    r
}

/// Resolves addresses (file offsets) of one binary through its debug
/// information, each address once.
pub struct Symbolizer {
    context: DwarfContext,
    cache: HashMap<u64, ResolvedFrame>,
}

impl Symbolizer {
    /// The frames resolved so far, by address.
    pub closed spec fn cached(&self) -> Map<u64, ResolvedFrame> {
        self.cache@
    }

    /// The bytes of the binary whose addresses are resolved.
    pub closed spec fn binary(&self) -> Seq<u8> {
        self.context.binary()
    }

    /// Every remembered frame is the one the debug information holds at its
    /// address.
    pub closed spec fn wf(&self) -> bool {
        forall|a: u64|
            #[trigger] self.cache@.contains_key(a) ==> frame_from_lookup_spec(a, dwarf_frames(self.binary(), a), self.cache@[a])
    }

    /// Loads the debug information of the binary whose bytes are `binary`.
    pub fn new(binary: &[u8]) -> (r: Result<Self, DwarfError>)
        ensures
            r is Ok <==> dwarf_load_error(binary@) is None,
            r matches Err(e) ==> dwarf_load_error(binary@) == Some(e),
            r matches Ok(s) ==> s.wf() && s.binary() == binary@ && s.cached() == Map::<u64, ResolvedFrame>::empty(),
    {
        match load_dwarf(binary) {
            Ok(context) => {
                let s = Symbolizer { context, cache: HashMap::new() };
                assert(s.cache@ =~= Map::<u64, ResolvedFrame>::empty());
                Ok(s)
            },
            Err(e) => Err(e),
        }
    }

    /// The frames the debug information holds at a file offset, innermost
    /// first (a single `<unknown>` frame when none is found). An address
    /// resolved before is answered from the cache; a new one is looked up
    /// and remembered; no other address's entry changes.
    pub fn resolve(&mut self, addr: u64) -> (r: ResolvedFrame)
        requires
            old(self).wf(),
        ensures
            final(self).wf(),
            final(self).binary() == old(self).binary(),
            frame_from_lookup_spec(addr, dwarf_frames(old(self).binary(), addr), r),
            final(self).cached().contains_key(addr),
            same_frame(r, final(self).cached()[addr]),
            final(self).cached().remove(addr) == old(self).cached().remove(addr),
            old(self).cached().contains_key(addr) ==> final(self).cached() == old(self).cached(),
    {
        match self.cache.get(&addr) {
            Some(f) => {
                let r = clone_resolved(f);
                proof {
                    lemma_same_frame_spec(addr, dwarf_frames(self.binary(), addr), *f, r);
                }
                return r;
            },
            None => {},
        }
        let raw = frames_at(&self.context, addr);
        let resolved = frame_from_lookup(addr, raw);
        let kept = clone_resolved(&resolved);
        proof {
            lemma_same_frame_spec(addr, dwarf_frames(self.binary(), addr), resolved, kept);
        }
        self.cache.insert(addr, kept);
        assert(final(self).cached().remove(addr) =~= old(self).cached().remove(addr));
        assert forall|a: u64| #[trigger] self.cache@.contains_key(a) implies frame_from_lookup_spec(
            a,
            dwarf_frames(self.binary(), a),
            self.cache@[a],
        ) by {
            if a != addr {
                assert(old(self).cache@.contains_key(a));
            }
        }
        resolved
    }

    /// The innermost frame the debug information holds at a file offset
    /// (`<unknown>` when none is found), resolved as by `resolve`.
    pub fn first_frame(&mut self, addr: u64) -> (r: Option<InlinedFrame>)
        requires
            old(self).wf(),
        ensures
            final(self).wf(),
            final(self).binary() == old(self).binary(),
            r matches Some(g) && first_frame_of(dwarf_frames(old(self).binary(), addr), g),
            final(self).cached().contains_key(addr),
            final(self).cached()[addr].frames@.len() > 0 && r == Some(final(self).cached()[addr].frames@[0]),
            final(self).cached().remove(addr) == old(self).cached().remove(addr),
            old(self).cached().contains_key(addr) ==> final(self).cached() == old(self).cached(),
    {
        let mut f = self.resolve(addr);
        let ghost raw = dwarf_frames(old(self).binary(), addr);
        proof {
            let fs = choose|fs: Seq<InlinedFrame>| #[trigger] named_frames(raw, fs) && resolved_from(addr, fs, f);
            reveal_strlit("<unknown>");
            if raw.len() > 0 {
                assert(f.frames@ == fs);
                assert(fs[0].function@ == lookup_name(raw[0]));
            }
        }
        Some(f.frames.remove(0))
    }
}

/// The frame named for an address is the innermost one the debug
/// information holds there: the first frame of the address's resolved
/// frame, with the name and location of the first lookup result (never of a
/// later, outer one), or `<unknown>` without a location when nothing was
/// found.
pub proof fn law_first_frame_is_innermost(addr: u64, raw: Seq<LookupView>, f: ResolvedFrame, g: InlinedFrame)
    requires
        frame_from_lookup_spec(addr, raw, f),
        first_frame_of(raw, g),
    ensures
        f.frames@.len() > 0,
        g.function@ == f.frames@[0].function@,
        location_view(g.location) == location_view(f.frames@[0].location),
        raw.len() > 0 ==> location_view(g.location) == raw[0].1 && match raw[0].0 {
            Some(n) => g.function@ == n,
            None => g.function@ == "<unknown>"@,
        },
        raw.len() == 0 ==> g.function@ == "<unknown>"@ && g.location is None,
{
    let fs = choose|fs: Seq<InlinedFrame>| #[trigger] named_frames(raw, fs) && resolved_from(addr, fs, f);
    if raw.len() > 0 {
        assert(f.frames@ == fs);
        assert(location_view(fs[0].location) == raw[0].1);
    }
}

} // verus!
