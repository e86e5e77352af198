//! The module map: which binaries are mapped into the target's address
//! space, each with its load range. An address lookup either lands in
//! exactly one module or fails in a way the caller can recover from by
//! rebuilding the map.

use vstd::prelude::*;

use crate::error::Error;

verus! {

/// One binary mapped into the target's address space: its identifying path
/// and the address range `[base, end)` it occupies.
#[derive(Debug, Clone)]
pub struct Module {
    /// The binary's path or other identifier.
    pub name: String,
    /// First address of the mapping.
    pub base: u64,
    /// First address past the mapping.
    pub end: u64,
}

impl Module {
    /// A module's range is well formed when it does not run backwards.
    pub open spec fn wf(self) -> bool {
        self.base <= self.end
    }

    /// Does this module's range contain `addr`?
    pub open spec fn contains_addr(self, addr: u64) -> bool {
        self.base <= addr < self.end
    }

    /// Does this module's range contain `addr`?
    pub fn covers(&self, addr: u64) -> (b: bool)
        ensures
            b == self.contains_addr(addr),
    {
        self.base <= addr && addr < self.end
    }
}

/// Are the entries each well formed and laid out in ascending, pairwise
/// disjoint ranges?
pub open spec fn entries_wf(s: Seq<Module>) -> bool {
    &&& forall|i: int| 0 <= i < s.len() ==> (#[trigger] s[i]).wf()
    &&& forall|i: int, j: int| 0 <= i < j < s.len() ==> (#[trigger] s[i]).end <= (#[trigger] s[j]).base
}

/// Adjacent order plus well-formed ranges gives the global pairwise order.
proof fn lemma_adjacent_entries_sorted(s: Seq<Module>, i: int, j: int)
    requires
        forall|k: int| 0 <= k < s.len() ==> (#[trigger] s[k]).wf(),
        forall|k: int| 0 <= k < s.len() - 1 ==> (#[trigger] s[k]).end <= s[k + 1].base,
        0 <= i < j < s.len(),
    ensures
        s[i].end <= s[j].base,
    decreases j - i,
{
    if j > i + 1 {
        lemma_adjacent_entries_sorted(s, i, j - 1);
    }
}

/// The set of binaries currently known to be mapped into the target, ordered
/// by address. The map is a snapshot: the target can load or unload binaries
/// after it was built, and a lookup against a stale map fails explicitly
/// rather than guessing.
#[derive(Debug, Clone)]
pub struct ModuleMap {
    /// The mapped binaries, ascending and disjoint.
    pub modules: Vec<Module>,
}

impl ModuleMap {
    /// The map's invariant: every module well formed, ranges ascending and
    /// pairwise disjoint.
    pub open spec fn wf(self) -> bool {
        entries_wf(self.modules@)
    }

    /// Build a map from entries. Succeeds exactly when the entries are each
    /// well formed and laid out in ascending disjoint order; the map then
    /// holds them unchanged.
    pub fn from_entries(entries: Vec<Module>) -> (r: Result<ModuleMap, Error>)
        ensures
            r matches Ok(m) ==> m.wf() && m.modules@ == entries@,
            r is Ok <==> entries_wf(entries@),
    {
        let n = entries.len();
        let mut i: usize = 0;
        while i < n
            invariant
                n == entries@.len(),
                0 <= i <= n,
                forall|k: int| 0 <= k < i ==> (#[trigger] entries@[k]).wf(),
                forall|k: int| 0 <= k < i - 1 ==> (#[trigger] entries@[k]).end <= entries@[k + 1].base,
            decreases n - i,
        {
            if entries[i].base > entries[i].end {
                proof {
                    assert(!(entries@[i as int]).wf());
                }
                return Err(Error::Other(String::from_str("module range runs backwards")));
            }
            if i > 0 {
                if entries[i - 1].end > entries[i].base {
                    return Err(Error::Other(String::from_str("module ranges overlap or are unsorted")));
                }
            }
            i = i + 1;
        }
        proof {
            assert forall|a: int, b: int| 0 <= a < b < entries@.len() implies
                (#[trigger] entries@[a]).end <= (#[trigger] entries@[b]).base by {
                lemma_adjacent_entries_sorted(entries@, a, b);
            }
        }
        Ok(ModuleMap { modules: entries })
    }

    /// How many modules the map holds.
    pub fn len(&self) -> (n: usize)
        ensures
            n == self.modules@.len(),
    {
        self.modules.len()
    }

    /// The index of the module whose range contains `addr`: `Some` exactly
    /// when one does, `None` when the address lies outside every known
    /// module.
    pub fn find(&self, addr: u64) -> (r: Option<usize>)
        ensures
            r matches Some(i) ==> i < self.modules@.len() && self.modules@[i as int].contains_addr(
                addr,
            ),
            r is None ==> forall|i: int| 0 <= i < self.modules@.len() ==> !(
            #[trigger] self.modules@[i]).contains_addr(addr),
    {
        let n = self.modules.len();
        let mut i: usize = 0;
        while i < n
            invariant
                n == self.modules@.len(),
                0 <= i <= n,
                forall|k: int| 0 <= k < i ==> !(#[trigger] self.modules@[k]).contains_addr(addr),
            decreases n - i,
        {
            if self.modules[i].covers(addr) {
                return Some(i);
            }
            i = i + 1;
        }
        None
    }

    /// In a well-formed map an address belongs to at most one module: two
    /// covering indices are the same index.
    pub proof fn lemma_unique_module(self, addr: u64, i: int, j: int)
        requires
            self.wf(),
            0 <= i < self.modules@.len(),
            0 <= j < self.modules@.len(),
            self.modules@[i].contains_addr(addr),
            self.modules@[j].contains_addr(addr),
        ensures
            i == j,
    {
    }
}

/// Is every byte of `s` a lowercase hexadecimal digit?
pub open spec fn is_hex_digits(s: Seq<u8>) -> bool {
    forall|i: int| 0 <= i < s.len() ==> (48 <= #[trigger] s[i] <= 57 || 97 <= s[i] <= 102)
}

/// The value of one lowercase hexadecimal digit byte.
pub open spec fn hex_digit_val(b: u8) -> int {
    if 48 <= b <= 57 {
        b - 48
    } else {
        b - 87
    }
}

/// The number that the digit bytes `s` spell in lowercase hexadecimal.
pub open spec fn hex_value_of(s: Seq<u8>) -> int
    decreases s.len(),
{
    if s.len() == 0 {
        0
    } else {
        hex_value_of(s.drop_last()) * 16 + hex_digit_val(s.last())
    }
}

proof fn lemma_hex_value_nonneg(s: Seq<u8>)
    requires
        is_hex_digits(s),
    ensures
        hex_value_of(s) >= 0,
    decreases s.len(),
{
    if s.len() > 0 {
        assert(is_hex_digits(s.drop_last()));
        lemma_hex_value_nonneg(s.drop_last());
    }
}

proof fn lemma_hex_prefix_le(s: Seq<u8>, i: int)
    requires
        is_hex_digits(s),
        0 <= i <= s.len(),
    ensures
        hex_value_of(s.subrange(0, i)) <= hex_value_of(s),
    decreases s.len() - i,
{
    if i == s.len() {
        assert(s.subrange(0, i) =~= s);
    } else {
        let p = s.subrange(0, i + 1);
        assert(p.drop_last() =~= s.subrange(0, i));
        assert(is_hex_digits(s.subrange(0, i)));
        lemma_hex_value_nonneg(s.subrange(0, i));
        lemma_hex_prefix_le(s, i + 1);
    }
}

/// Parse `s[from..to)` as lowercase hexadecimal. The result exists exactly
/// when the range is nonempty, wholly hex digits, and its value fits in a
/// `u64`.
pub fn parse_hex_range(s: &Vec<u8>, from: usize, to: usize) -> (r: Option<u64>)
    requires
        from <= to <= s@.len(),
    ensures
        r matches Some(v) ==> to > from && is_hex_digits(s@.subrange(from as int, to as int))
            && v == hex_value_of(s@.subrange(from as int, to as int)),
        r is None ==> to == from || !is_hex_digits(s@.subrange(from as int, to as int))
            || hex_value_of(s@.subrange(from as int, to as int)) > u64::MAX,
{
    let ghost whole = s@.subrange(from as int, to as int);
    if to == from {
        return None;
    }
    let mut acc: u64 = 0;
    let mut i: usize = from;
    while i < to
        invariant
            from <= i <= to <= s@.len(),
            whole == s@.subrange(from as int, to as int),
            is_hex_digits(s@.subrange(from as int, i as int)),
            acc == hex_value_of(s@.subrange(from as int, i as int)),
        decreases to - i,
    {
        let b = s[i];
        let d: u64;
        if 48 <= b && b <= 57 {
            d = (b - 48) as u64;
        } else if 97 <= b && b <= 102 {
            d = (b - 87) as u64;
        } else {
            proof {
                assert(whole[i - from] == b);
                assert(!is_hex_digits(whole));
            }
            return None;
        }
        proof {
            assert(s@.subrange(from as int, i as int + 1).drop_last() =~= s@.subrange(
                from as int,
                i as int,
            ));
            assert(s@.subrange(from as int, i as int + 1) =~= whole.subrange(
                0,
                i - from + 1,
            ));
        }
        if acc > 0x0fff_ffff_ffff_ffff {
            proof {
                assert(hex_value_of(whole.subrange(0, i - from + 1)) > u64::MAX);
                if is_hex_digits(whole) {
                    lemma_hex_prefix_le(whole, i - from + 1);
                }
            }
            return None;
        }
        acc = acc * 16 + d;
        i = i + 1;
    }
    proof {
        assert(s@.subrange(from as int, i as int) =~= whole);
    }
    Some(acc)
}

/// The first position at or after `from` where `s` holds the byte `b`:
/// `Some` exactly when the byte occurs there at all, and then nothing
/// before the returned position (and at or after `from`) is `b`.
pub fn find_byte(s: &Vec<u8>, from: usize, b: u8) -> (r: Option<usize>)
    requires
        from <= s@.len(),
    ensures
        r matches Some(i) ==> from <= i < s@.len() && s@[i as int] == b && forall|k: int|
            from <= k < i ==> s@[k] != b,
        r is None ==> forall|k: int| from <= k < s@.len() ==> s@[k] != b,
{
    let n = s.len();
    let mut i: usize = from;
    while i < n
        invariant
            from <= i <= n == s@.len(),
            forall|k: int| from <= k < i ==> s@[k] != b,
        decreases n - i,
    {
        if s[i] == b {
            return Some(i);
        }
        i = i + 1;
    }
    None
}

/// The first position at or after `lo` where `s` holds the byte `b`, or
/// `s.len()` when it occurs nowhere there.
pub open spec fn spec_first(s: Seq<u8>, b: u8, lo: int) -> int
    decreases s.len() - lo,
{
    if lo < 0 || lo >= s.len() {
        s.len() as int
    } else if s[lo] == b {
        lo
    } else {
        spec_first(s, b, lo + 1)
    }
}

proof fn lemma_spec_first_found(s: Seq<u8>, b: u8, lo: int, i: int)
    requires
        0 <= lo <= i < s.len(),
        s[i] == b,
        forall|k: int| lo <= k < i ==> s[k] != b,
    ensures
        spec_first(s, b, lo) == i,
    decreases i - lo,
{
    if lo < i {
        lemma_spec_first_found(s, b, lo + 1, i);
    }
}

proof fn lemma_spec_first_none(s: Seq<u8>, b: u8, lo: int)
    requires
        0 <= lo <= s.len(),
        forall|k: int| lo <= k < s.len() ==> s[k] != b,
    ensures
        spec_first(s, b, lo) == s.len(),
    decreases s.len() - lo,
{
    if lo < s.len() {
        lemma_spec_first_none(s, b, lo + 1);
    }
}

/// What one line of the target's mapping table describes, when it describes
/// an executable file-backed mapping: the hexadecimal range before and
/// after the first `-`, and the path bytes from the first `/` after the
/// first space that follows the range. The positions are first occurrences,
/// so a line's reading is unique; a line whose third permission byte is not
/// `x`, or that lacks any of the pieces, describes nothing.
pub open spec fn spec_line_fields(s: Seq<u8>) -> Option<(u64, u64, Seq<u8>)> {
    let d = spec_first(s, 45, 0);
    let sp = spec_first(s, 32, d + 1);
    let sl = spec_first(s, 47, sp);
    if {
        &&& 0 < d < s.len()
        &&& d + 1 < sp < s.len()
        &&& sp + 3 < s.len() && s[sp + 3] == 120
        &&& sl < s.len()
        &&& is_hex_digits(s.subrange(0, d))
        &&& is_hex_digits(s.subrange(d + 1, sp))
        &&& hex_value_of(s.subrange(0, d)) <= u64::MAX
        &&& hex_value_of(s.subrange(d + 1, sp)) <= u64::MAX
    } {
        Some(
            (
                hex_value_of(s.subrange(0, d)) as u64,
                hex_value_of(s.subrange(d + 1, sp)) as u64,
                s.subrange(sl, s.len() as int),
            ),
        )
    } else {
        None
    }
}

/// Does the module record the fields read off a line: the range verbatim,
/// and the path bytes as the name (pinned when the path is plain ASCII)?
pub open spec fn module_matches_fields(m: Module, f: (u64, u64, Seq<u8>)) -> bool {
    &&& m.base == f.0
    &&& m.end == f.1
    &&& ((forall|k: int| 0 <= k < f.2.len() ==> #[trigger] f.2[k] < 128) ==> m.name@
        == f.2.map_values(|b: u8| b as char))
}

/// Relies on `String::from_utf8_lossy`: ASCII bytes are valid UTF-8 and map
/// to themselves, so for an all-ASCII input the returned string is exactly
/// those bytes as characters; other bytes are replaced lossily.
#[verifier::external_body]
fn bytes_to_string(v: &Vec<u8>) -> (r: String)
    ensures
        (forall|k: int| 0 <= k < v@.len() ==> #[trigger] v@[k] < 128) ==> r@ == v@.map_values(
            |b: u8| b as char,
        ),
{
    String::from_utf8_lossy(v).into_owned()
}

/// Parse one line of the target's mapping table, exactly as
/// [`spec_line_fields`] reads it: a module comes back precisely when the
/// line describes an executable file-backed mapping, and then it carries
/// the line's range and path.
pub fn parse_maps_line(line: &Vec<u8>) -> (r: Option<Module>)
    ensures
        (match r {
            Some(m) => (match spec_line_fields(line@) {
                Some(f) => module_matches_fields(m, f),
                None => false,
            }),
            None => spec_line_fields(line@) is None,
        }),
{
    let n = line.len();
    let d = match find_byte(line, 0, 45) {
        Some(i) => i,
        None => {
            proof {
                lemma_spec_first_none(line@, 45, 0);
            }
            return None;
        },
    };
    proof {
        lemma_spec_first_found(line@, 45, 0, d as int);
    }
    if d == 0 {
        return None;
    }
    let base = match parse_hex_range(line, 0, d) {
        Some(v) => v,
        None => { return None; },
    };
    let sp = match find_byte(line, d + 1, 32) {
        Some(i) => i,
        None => {
            proof {
                lemma_spec_first_none(line@, 32, d as int + 1);
            }
            return None;
        },
    };
    proof {
        lemma_spec_first_found(line@, 32, d as int + 1, sp as int);
    }
    let end = match parse_hex_range(line, d + 1, sp) {
        Some(v) => v,
        None => { return None; },
    };
    if n < 4 || sp >= n - 3 {
        return None;
    }
    if line[sp + 3] != 120 {
        return None;
    }
    let sl = match find_byte(line, sp, 47) {
        Some(i) => i,
        None => {
            proof {
                lemma_spec_first_none(line@, 47, sp as int);
            }
            return None;
        },
    };
    proof {
        lemma_spec_first_found(line@, 47, sp as int, sl as int);
    }
    let mut path: Vec<u8> = Vec::new();
    let mut i: usize = sl;
    while i < n
        invariant
            sl <= i <= n == line@.len(),
            path@ == line@.subrange(sl as int, i as int),
        decreases n - i,
    {
        path.push(line[i]);
        proof {
            assert(path@ =~= line@.subrange(sl as int, i as int + 1));
        }
        i = i + 1;
    }
    let name = bytes_to_string(&path);
    let m = Module { name, base, end };
    proof {
        assert(path@ == line@.subrange(sl as int, line@.len() as int));
        assert(spec_line_fields(line@) matches Some(f) && module_matches_fields(m, f));
    }
    Some(m)
}

/// What the whole mapping table describes: the fields of each line that
/// describes an executable file-backed mapping, one entry per such line, in
/// the text's order. Lines are maximal newline-free spans.
pub open spec fn spec_parse_text(text: Seq<u8>) -> Seq<(u64, u64, Seq<u8>)>
    decreases text.len(),
{
    if text.len() == 0 {
        Seq::empty()
    } else {
        let b = spec_first(text, 10, 0);
        if 0 <= b < text.len() {
            let head = match spec_line_fields(text.subrange(0, b)) {
                Some(f) => seq![f],
                None => Seq::empty(),
            };
            head + spec_parse_text(text.subrange(b + 1, text.len() as int))
        } else {
            match spec_line_fields(text) {
                Some(f) => seq![f],
                None => Seq::empty(),
            }
        }
    }
}

/// Parse the target's whole mapping table, exactly as [`spec_parse_text`]
/// reads it: one module per line that describes an executable file-backed
/// mapping, in the text's order, each carrying its line's range and path —
/// and nothing else.
pub fn parse_maps_text(text: &Vec<u8>) -> (r: Vec<Module>)
    ensures
        r@.len() == spec_parse_text(text@).len(),
        forall|j: int| 0 <= j < r@.len() ==> module_matches_fields(
            #[trigger] r@[j],
            spec_parse_text(text@)[j],
        ),
{
    let n = text.len();
    let mut out: Vec<Module> = Vec::new();
    let mut start: usize = 0;
    let ghost mut done: Seq<(u64, u64, Seq<u8>)> = Seq::empty();
    proof {
        assert(text@.subrange(0, n as int) =~= text@);
        assert(spec_parse_text(text@) =~= done + spec_parse_text(text@.subrange(0, n as int)));
    }
    while start < n
        invariant
            0 <= start <= n == text@.len(),
            out@.len() == done.len(),
            forall|j: int| 0 <= j < out@.len() ==> module_matches_fields(
                #[trigger] out@[j],
                done[j],
            ),
            spec_parse_text(text@) == done + spec_parse_text(
                text@.subrange(start as int, n as int),
            ),
        decreases n - start,
    {
        let ghost suffix = text@.subrange(start as int, n as int);
        let stop = match find_byte(text, start, 10) {
            Some(i) => i,
            None => n,
        };
        proof {
            if stop < n {
                assert(suffix[stop - start] == 10);
                assert forall|k: int| 0 <= k < stop - start implies suffix[k] != 10 by {
                    assert(suffix[k] == text@[start + k]);
                }
                lemma_spec_first_found(suffix, 10, 0, stop - start);
            } else {
                assert forall|k: int| 0 <= k < suffix.len() implies suffix[k] != 10 by {
                    assert(suffix[k] == text@[start + k]);
                }
                lemma_spec_first_none(suffix, 10, 0);
            }
        }
        let mut line: Vec<u8> = Vec::new();
        let mut i: usize = start;
        while i < stop
            invariant
                start <= i <= stop <= n == text@.len(),
                line@ == text@.subrange(start as int, i as int),
            decreases stop - i,
        {
            line.push(text[i]);
            proof {
                assert(line@ =~= text@.subrange(start as int, i as int + 1));
            }
            i = i + 1;
        }
        proof {
            assert(line@ =~= suffix.subrange(0, stop - start));
            if stop < n {
                assert(suffix.subrange(stop - start + 1, suffix.len() as int) =~= text@.subrange(
                    stop as int + 1,
                    n as int,
                ));
                assert(spec_parse_text(suffix) == (match spec_line_fields(line@) {
                    Some(f) => seq![f],
                    None => Seq::<(u64, u64, Seq<u8>)>::empty(),
                }) + spec_parse_text(text@.subrange(stop as int + 1, n as int)));
            } else {
                assert(line@ =~= suffix);
                assert(spec_parse_text(suffix) == (match spec_line_fields(line@) {
                    Some(f) => seq![f],
                    None => Seq::<(u64, u64, Seq<u8>)>::empty(),
                }));
            }
        }
        let ghost out0 = out@;
        let ghost done0 = done;
        match parse_maps_line(&line) {
            Some(m) => {
                out.push(m);
                proof {
                    let f = spec_line_fields(line@)->Some_0;
                    done = done + seq![f];
                    assert forall|j: int| 0 <= j < out@.len() implies module_matches_fields(
                        #[trigger] out@[j],
                        done[j],
                    ) by {
                        if j < out0.len() {
                            assert(out@[j] == out0[j] && done[j] == done0[j]);
                        } else {
                            assert(out@[j] == m && done[j] == f);
                        }
                    }
                }
            },
            None => {},
        }
        if stop == n {
            start = n;
            proof {
                assert(text@.subrange(n as int, n as int) =~= Seq::<u8>::empty());
                assert(spec_parse_text(text@.subrange(n as int, n as int)) =~= Seq::<(
                    u64,
                    u64,
                    Seq<u8>,
                )>::empty());
                assert(spec_parse_text(text@) =~= done + spec_parse_text(
                    text@.subrange(start as int, n as int),
                ));
            }
        } else {
            start = stop + 1;
            proof {
                assert(spec_parse_text(text@) =~= done + spec_parse_text(
                    text@.subrange(start as int, n as int),
                ));
            }
        }
    }
    proof {
        assert(text@.subrange(start as int, n as int) =~= Seq::<u8>::empty());
        assert(spec_parse_text(text@.subrange(start as int, n as int)) =~= Seq::<(
            u64,
            u64,
            Seq<u8>,
        )>::empty());
        assert(spec_parse_text(text@) =~= done);
    }
    out
}

} // verus!
