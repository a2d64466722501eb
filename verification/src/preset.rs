//! Server presets: `.ini` files whose unnamed (or `*`) section holds the
//! global settings of the server and whose other sections each describe a
//! model slot.
//!
//! A setting whose value is a floating-point number (`temp`, `top-p`,
//! `min-p`, `repeat-penalty`) is kept as the text that the file gives; it
//! is read as a number where numbers of that kind are read.

use vstd::prelude::*;
use crate::kv::KvMap;
use crate::number::{float_literal, is_float_literal, parse_bounded, parse_signed, parse_i32, parse_u32, parse_unsigned_bounded};
use crate::text::{
    chars_eq, chars_of, find_char, first_index_of, has_char, has_suffix, lines, slice_chars, split_lines,
    string_from_chars, trim, trim_str, trim_ws, views, ends_with, no_edge_ws, lemma_trim_no_edge_ws,
};
use crate::workspace::{path_file_stem, file_stem, join_path, path_names, rooted};
use crate::text::{split_nonempty, push_all, push_str};

verus! {

/// The value of `key`, if set.
pub open spec fn mget(m: Map<Seq<char>, Seq<char>>, key: Seq<char>) -> Option<Seq<char>> {
    if m.contains_key(key) {
        Some(m[key])
    } else {
        None
    }
}

/// The setting `key` read as an unsigned number of at most `max`, after
/// trimming.
pub open spec fn m_unsigned(m: Map<Seq<char>, Seq<char>>, key: Seq<char>, max: nat) -> Option<nat> {
    match mget(m, key) {
        Some(v) => parse_bounded(trim(v), max),
        None => None,
    }
}

/// The setting `key` read as a switch: set and, trimmed, `true`.
pub open spec fn m_flag(m: Map<Seq<char>, Seq<char>>, key: Seq<char>) -> Option<bool> {
    match mget(m, key) {
        Some(v) => Some(trim(v) == "true"@),
        None => None,
    }
}

/// The setting `key` read as a 32-bit signed number, after trimming.
pub open spec fn m_i32(m: Map<Seq<char>, Seq<char>>, key: Seq<char>) -> Option<int> {
    match mget(m, key) {
        Some(v) => match parse_signed(trim(v)) {
            Some(n) => if i32::MIN <= n <= i32::MAX {
                Some(n)
            } else {
                None
            },
            None => None,
        },
        None => None,
    }
}

/// An optional `u32` as an optional number.
pub open spec fn onat(o: Option<u32>) -> Option<nat> {
    match o {
        Some(v) => Some(v as nat),
        None => None,
    }
}

/// An optional string's characters.
pub open spec fn ostr(o: Option<String>) -> Option<Seq<char>> {
    match o {
        Some(s) => Some(s@),
        None => None,
    }
}

/// The settings of the server as a whole.
#[derive(Debug, Clone)]
pub struct GlobalSettings {
    pub n_gpu_layers: i32,
    pub flash_attn: bool,
    pub mlock: bool,
    pub batch_size: Option<u32>,
    pub ubatch_size: Option<u32>,
    pub threads: Option<u32>,
    pub threads_batch: Option<u32>,
    pub host: Option<String>,
    pub port: Option<u32>,
}

/// The global settings that the values of the global section give:
/// `n-gpu-layers` defaults to -1, the switches to off.
pub open spec fn spec_global_ok(g: GlobalSettings, m: Map<Seq<char>, Seq<char>>) -> bool {
    &&& g.n_gpu_layers == (match m_i32(m, "n-gpu-layers"@) {
        Some(n) => n,
        None => -1,
    })
    &&& g.flash_attn == (m_flag(m, "flash-attn"@) == Some(true))
    &&& g.mlock == (m_flag(m, "mlock"@) == Some(true))
    &&& onat(g.batch_size) == m_unsigned(m, "batch-size"@, u32::MAX as nat)
    &&& onat(g.ubatch_size) == m_unsigned(m, "ubatch-size"@, u32::MAX as nat)
    &&& onat(g.threads) == m_unsigned(m, "threads"@, u32::MAX as nat)
    &&& onat(g.threads_batch) == m_unsigned(m, "threads-batch"@, u32::MAX as nat)
    &&& ostr(g.host) == mget(m, "host"@)
    &&& onat(g.port) == m_unsigned(m, "port"@, u32::MAX as nat)
}

fn opt_u32(m: &KvMap, key: &str) -> (r: Option<u32>)
    ensures
        onat(r) == m_unsigned(m@, key@, u32::MAX as nat),
{
    match m.get(key) {
        Some(v) => parse_u32(&trim_str(v.as_str())),
        None => None,
    }
}

fn opt_flag(m: &KvMap, key: &str) -> (r: Option<bool>)
    ensures
        r == m_flag(m@, key@),
{
    match m.get(key) {
        Some(v) => Some(chars_eq(&trim_str(v.as_str()), &chars_of("true"))),
        None => None,
    }
}

fn flag(m: &KvMap, key: &str) -> (r: bool)
    ensures
        r == (m_flag(m@, key@) == Some(true)),
{
    match opt_flag(m, key) {
        Some(b) => b,
        None => false,
    }
}

/// Reads the global section of a preset.
pub fn parse_global_section(values: &KvMap) -> (r: GlobalSettings)
    ensures
        spec_global_ok(r, values@),
{
    let n_gpu_layers = match values.get("n-gpu-layers") {
        Some(v) => match parse_i32(&trim_str(v.as_str())) {
            Some(n) => n,
            None => -1,
        },
        None => -1,
    };
    GlobalSettings {
        n_gpu_layers,
        flash_attn: flag(values, "flash-attn"),
        mlock: flag(values, "mlock"),
        batch_size: opt_u32(values, "batch-size"),
        ubatch_size: opt_u32(values, "ubatch-size"),
        threads: opt_u32(values, "threads"),
        threads_batch: opt_u32(values, "threads-batch"),
        host: values.get("host"),
        port: opt_u32(values, "port"),
    }
}

/// A model slot of a preset.
#[derive(Debug, Clone)]
pub struct Slot {
    pub index: u8,
    pub name: String,
    pub model_path: Option<String>,
    pub ctx_size: Option<u32>,
    pub cache_type_k: Option<String>,
    pub cache_type_v: Option<String>,
    /// The text of the `temp` setting, when it reads as an `f32`.
    pub temp: Option<String>,
    /// The text of the `top-p` setting, when it reads as an `f32`.
    pub top_p: Option<String>,
    /// The text of the `min-p` setting, when it reads as an `f32`.
    pub min_p: Option<String>,
    pub top_k: Option<u32>,
    /// The text of the `repeat-penalty` setting, when it reads as an `f32`.
    pub repeat_penalty: Option<String>,
    pub repeat_last_n: Option<u32>,
    pub load_on_startup: bool,
    pub jinja: Option<bool>,
    pub parallel: Option<u32>,
    pub image_min_tokens: Option<u32>,
}

/// The part of a section name before its first `-`.
pub open spec fn section_head(sec: Seq<char>) -> Seq<char> {
    match first_index_of(sec, '-') {
        Some(i) => sec.take(i),
        None => sec,
    }
}

/// The slot's index: the number before the first `-` of its section's
/// name, or 0 when that is no number of 0 to 255.
pub open spec fn section_index(sec: Seq<char>) -> nat {
    match parse_bounded(section_head(sec), 255) {
        Some(v) => v,
        None => 0,
    }
}

/// The slot's name: what follows the first `-` of its section's name, or
/// the whole name when it has no `-`.
pub open spec fn section_slot_name(sec: Seq<char>) -> Seq<char> {
    match first_index_of(sec, '-') {
        Some(i) => sec.skip(i + 1),
        None => sec,
    }
}

/// A float setting of a slot: its trimmed text, when `f32` reads it.
pub open spec fn m_float(m: Map<Seq<char>, Seq<char>>, key: Seq<char>) -> Option<Seq<char>> {
    match mget(m, key) {
        Some(v) => if is_float_literal(trim(v)) {
            Some(trim(v))
        } else {
            None
        },
        None => None,
    }
}

/// The slot that section `sec` with values `m` describes.
pub open spec fn spec_slot_ok(s: Slot, sec: Seq<char>, m: Map<Seq<char>, Seq<char>>) -> bool {
    &&& s.index as nat == section_index(sec)
    &&& s.name@ == section_slot_name(sec)
    &&& ostr(s.model_path) == mget(m, "model"@)
    &&& onat(s.ctx_size) == m_unsigned(m, "ctx-size"@, u32::MAX as nat)
    &&& ostr(s.cache_type_k) == mget(m, "cache-type-k"@)
    &&& ostr(s.cache_type_v) == mget(m, "cache-type-v"@)
    &&& ostr(s.temp) == m_float(m, "temp"@)
    &&& ostr(s.top_p) == m_float(m, "top-p"@)
    &&& ostr(s.min_p) == m_float(m, "min-p"@)
    &&& onat(s.top_k) == m_unsigned(m, "top-k"@, u32::MAX as nat)
    &&& ostr(s.repeat_penalty) == m_float(m, "repeat-penalty"@)
    &&& onat(s.repeat_last_n) == m_unsigned(m, "repeat-last-n"@, u32::MAX as nat)
    &&& s.load_on_startup == (m_flag(m, "load-on-startup"@) == Some(true))
    &&& s.jinja == m_flag(m, "jinja"@)
    &&& onat(s.parallel) == m_unsigned(m, "parallel"@, u32::MAX as nat)
    &&& onat(s.image_min_tokens) == m_unsigned(m, "image-min-tokens"@, u32::MAX as nat)
}

fn opt_float(m: &KvMap, key: &str) -> (r: Option<String>)
    ensures
        ostr(r) == m_float(m@, key@),
{
    match m.get(key) {
        Some(v) => {
            let t = trim_str(v.as_str());
            if float_literal(&t) {
                Some(string_from_chars(&t))
            } else {
                None
            }
        },
        None => None,
    }
}

/// Reads a slot section of a preset.
pub fn parse_slot_section(section_name: &str, values: &KvMap) -> (r: Slot)
    ensures
        spec_slot_ok(r, section_name@, values@),
{
    let sec = chars_of(section_name);
    let (head, name) = match find_char(&sec, '-') {
        Some(i) => {
            let h = slice_chars(&sec, 0, i);
            let n = slice_chars(&sec, i + 1, sec.len());
            assert(sec@.take(i as int) =~= sec@.subrange(0, i as int));
            assert(sec@.skip(i + 1) =~= sec@.subrange(i + 1, sec@.len() as int));
            (h, string_from_chars(&n))
        },
        None => (sec.clone(), String::from_str(section_name)),
    };
    let index: u8 = match parse_unsigned_bounded(&head, 255) {
        Some(v) => v as u8,
        None => 0,
    };
    Slot {
        index,
        name,
        model_path: values.get("model"),
        ctx_size: opt_u32(values, "ctx-size"),
        cache_type_k: values.get("cache-type-k"),
        cache_type_v: values.get("cache-type-v"),
        temp: opt_float(values, "temp"),
        top_p: opt_float(values, "top-p"),
        min_p: opt_float(values, "min-p"),
        top_k: opt_u32(values, "top-k"),
        repeat_penalty: opt_float(values, "repeat-penalty"),
        repeat_last_n: opt_u32(values, "repeat-last-n"),
        load_on_startup: flag(values, "load-on-startup"),
        jinja: opt_flag(values, "jinja"),
        parallel: opt_u32(values, "parallel"),
        image_min_tokens: opt_u32(values, "image-min-tokens"),
    }
}

/// The state of reading a preset: the global values, the section being
/// read, the finished sections and the values of the section being read.
pub struct ReadState {
    pub global: Map<Seq<char>, Seq<char>>,
    pub section: Seq<char>,
    pub sections: Seq<(Seq<char>, Map<Seq<char>, Seq<char>>)>,
    pub current: Map<Seq<char>, Seq<char>>,
}

/// A trimmed line that opens a section: `[name]`.
pub open spec fn is_header(t: Seq<char>) -> bool {
    t.len() > 0 && t[0] == '[' && t.last() == ']'
}

/// Closes the section being read: the values of the `*` section become the
/// global values; another section joins the finished ones.
pub open spec fn close_section(st: ReadState) -> ReadState {
    if st.section == "*"@ {
        ReadState { global: st.current, ..st }
    } else {
        ReadState { sections: st.sections.push((st.section, st.current)), ..st }
    }
}

/// One line of a preset file: blank lines and `#` comments change
/// nothing; `[name]` closes the section and opens `name`; a line with `=`
/// sets the trimmed part before it to the trimmed part after it.
pub open spec fn read_line(st: ReadState, line: Seq<char>) -> ReadState {
    let t = trim(line);
    if t.len() == 0 || t[0] == '#' {
        st
    } else if is_header(t) {
        ReadState { section: t.subrange(1, t.len() - 1), current: Map::empty(), ..close_section(st) }
    } else {
        match first_index_of(t, '=') {
            Some(i) => ReadState { current: st.current.insert(trim(t.take(i)), trim(t.skip(i + 1))), ..st },
            None => st,
        }
    }
}

/// The state after reading the lines.
pub open spec fn read_lines(ls: Seq<Seq<char>>) -> ReadState
    decreases ls.len(),
{
    if ls.len() == 0 {
        ReadState { global: Map::empty(), section: "*"@, sections: Seq::empty(), current: Map::empty() }
    } else {
        read_line(read_lines(ls.drop_last()), ls.last())
    }
}

/// The global values and the sections of a preset file's content.
pub open spec fn read_preset(content: Seq<char>) -> ReadState {
    close_section(read_lines(lines(content)))
}

/// A slot and the section it came from, for the ordering of slots.
pub open spec fn slot_index(s: Slot) -> u8 {
    s.index
}

/// `x` inserted after every slot whose index is not above its own.
pub open spec fn insert_slot(s: Seq<Slot>, x: Slot) -> Seq<Slot>
    decreases s.len(),
{
    if s.len() == 0 {
        seq![x]
    } else if x.index < s[0].index {
        seq![x] + s
    } else {
        seq![s[0]] + insert_slot(s.drop_first(), x)
    }
}

/// The slots ordered by index, slots of equal index in file order (the
/// stable `sort_by_key`).
pub open spec fn sort_slots(s: Seq<Slot>) -> Seq<Slot>
    decreases s.len(),
{
    if s.len() == 0 {
        s
    } else {
        insert_slot(sort_slots(s.drop_last()), s.last())
    }
}

/// Slots in order of index.
pub open spec fn sorted_by_index(s: Seq<Slot>) -> bool {
    forall|i: int, j: int| 0 <= i < j < s.len() ==> s[i].index <= s[j].index
}

proof fn lemma_insert_slot_props(s: Seq<Slot>, x: Slot)
    requires
        sorted_by_index(s),
    ensures
        insert_slot(s, x).to_multiset() == s.to_multiset().insert(x),
        sorted_by_index(insert_slot(s, x)),
        forall|k: int| 0 <= k < insert_slot(s, x).len() ==> (#[trigger] insert_slot(s, x)[k] == x || s.contains(
            insert_slot(s, x)[k],
        )),
    decreases s.len(),
{
    broadcast use vstd::seq_lib::group_to_multiset_ensures, vstd::multiset::group_multiset_axioms;

    if s.len() == 0 {
        assert(seq![x] =~= Seq::<Slot>::empty().push(x));
        assert(s.to_multiset() =~= vstd::multiset::Multiset::empty());
    } else if x.index < s[0].index {
        let r = seq![x] + s;
        vstd::seq_lib::lemma_multiset_commutative(seq![x], s);
        assert(seq![x] =~= Seq::<Slot>::empty().push(x));
        assert(Seq::<Slot>::empty().to_multiset() =~= vstd::multiset::Multiset::empty());
        assert(r.to_multiset() =~= s.to_multiset().insert(x));
        assert forall|k: int| 0 <= k < r.len() implies (#[trigger] r[k] == x || s.contains(r[k])) by {
            if k > 0 {
                assert(r[k] == s[k - 1]);
            }
        }
    } else {
        let t = s.drop_first();
        lemma_insert_slot_props(t, x);
        let it = insert_slot(t, x);
        let r = seq![s[0]] + it;
        vstd::seq_lib::lemma_multiset_commutative(seq![s[0]], it);
        vstd::seq_lib::lemma_multiset_commutative(seq![s[0]], t);
        assert(seq![s[0]] + t =~= s);
        assert(r.to_multiset() =~= s.to_multiset().insert(x));
        assert forall|k: int| 0 <= k < r.len() implies (#[trigger] r[k] == x || s.contains(r[k])) by {
            if k > 0 {
                assert(r[k] == it[k - 1]);
                if it[k - 1] != x {
                    let q = choose|q: int| 0 <= q < t.len() && t[q] == it[k - 1];
                    assert(s[q + 1] == t[q]);
                }
            } else {
                assert(s[0] == r[0]);
            }
        }
        assert forall|i: int, j: int| 0 <= i < j < r.len() implies r[i].index <= r[j].index by {
            if i == 0 {
                assert(r[j] == it[j - 1]);
                if it[j - 1] != x {
                    let q = choose|q: int| 0 <= q < t.len() && t[q] == it[j - 1];
                    assert(s[q + 1] == t[q]);
                }
            } else {
                assert(r[i] == it[i - 1]);
                assert(r[j] == it[j - 1]);
            }
        }
    }
}

/// Sorting slots keeps every slot and orders them by index.
pub proof fn law_sort_slots(s: Seq<Slot>)
    ensures
        sort_slots(s).to_multiset() == s.to_multiset(),
        sorted_by_index(sort_slots(s)),
    decreases s.len(),
{
    broadcast use vstd::seq_lib::group_to_multiset_ensures;

    if s.len() > 0 {
        law_sort_slots(s.drop_last());
        lemma_insert_slot_props(sort_slots(s.drop_last()), s.last());
        assert(s.drop_last().push(s.last()) =~= s);
    } else {
        assert(s.to_multiset() =~= vstd::multiset::Multiset::empty());
    }
}

/// A preset.
#[derive(Debug, Clone)]
pub struct Preset {
    pub name: String,
    pub path: String,
    pub global: GlobalSettings,
    pub slots: Vec<Slot>,
}

/// Why a preset could not be read.
#[derive(Debug, Clone, Copy, PartialEq, Eq)]
pub enum PresetError {
    /// The path has no file name to name the preset after.
    InvalidFileName,
}

/// The slots a preset's sections describe, unsorted: one per section that
/// is not named `*`, in file order.
pub open spec fn slots_ok(slots: Seq<Slot>, sections: Seq<(Seq<char>, Map<Seq<char>, Seq<char>>)>) -> bool {
    &&& slots.len() == sections.len()
    &&& forall|i: int| 0 <= i < slots.len() ==> spec_slot_ok(#[trigger] slots[i], sections[i].0, sections[i].1)
}

/// The sections that give slots: those not named `*`.
pub open spec fn slot_sections(ss: Seq<(Seq<char>, Map<Seq<char>, Seq<char>>)>) -> Seq<
    (Seq<char>, Map<Seq<char>, Seq<char>>),
>
    decreases ss.len(),
{
    if ss.len() == 0 {
        ss
    } else if ss.last().0 == "*"@ {
        slot_sections(ss.drop_last())
    } else {
        slot_sections(ss.drop_last()).push(ss.last())
    }
}

/// The preset at `path` with file content `content`: named after the
/// path's file stem, its global settings from the global section, its
/// slots from the other sections, ordered by index.
pub open spec fn spec_preset_ok(p: Preset, path: Seq<char>, content: Seq<char>) -> bool {
    &&& path_file_stem(path) == Some(p.name@)
    &&& p.path@ == path
    &&& spec_global_ok(p.global, read_preset(content).global)
    &&& exists|unsorted: Seq<Slot>|
        slots_ok(unsorted, slot_sections(read_preset(content).sections)) && #[trigger] sort_slots(unsorted)
            == p.slots@
}

/// Every value of a map begins and ends with no white space.
pub open spec fn values_trimmed(m: Map<Seq<char>, Seq<char>>) -> bool {
    forall|k: Seq<char>| m.contains_key(k) ==> no_edge_ws(#[trigger] m[k])
}

/// Every value read so far begins and ends with no white space.
pub open spec fn state_trimmed(st: ReadState) -> bool {
    &&& values_trimmed(st.global)
    &&& values_trimmed(st.current)
    &&& forall|i: int| 0 <= i < st.sections.len() ==> values_trimmed(#[trigger] st.sections[i].1)
}

proof fn lemma_close_section_trimmed(st: ReadState)
    requires
        state_trimmed(st),
    ensures
        state_trimmed(close_section(st)),
{
    if st.section != "*"@ {
        let r = close_section(st);
        assert forall|i: int| 0 <= i < r.sections.len() implies values_trimmed(#[trigger] r.sections[i].1) by {
            if i < st.sections.len() {
                assert(r.sections[i] == st.sections[i]);
            }
        }
    }
}

proof fn lemma_read_line_trimmed(st: ReadState, line: Seq<char>)
    requires
        state_trimmed(st),
    ensures
        state_trimmed(read_line(st, line)),
{
    let t = trim(line);
    if t.len() == 0 || t[0] == '#' {
    } else if is_header(t) {
        lemma_close_section_trimmed(st);
    } else {
        match first_index_of(t, '=') {
            Some(i) => {
                let v = trim(t.skip(i + 1));
                lemma_trim_no_edge_ws(t.skip(i + 1));
                let m = st.current.insert(trim(t.take(i)), v);
                assert forall|k: Seq<char>| m.contains_key(k) implies no_edge_ws(#[trigger] m[k]) by {
                    if k != trim(t.take(i)) {
                        assert(st.current.contains_key(k));
                    }
                }
            },
            None => {},
        }
    }
}

proof fn lemma_read_lines_trimmed(ls: Seq<Seq<char>>)
    ensures
        state_trimmed(read_lines(ls)),
    decreases ls.len(),
{
    if ls.len() > 0 {
        lemma_read_lines_trimmed(ls.drop_last());
        lemma_read_line_trimmed(read_lines(ls.drop_last()), ls.last());
    }
}

proof fn lemma_slot_sections_from(ss: Seq<(Seq<char>, Map<Seq<char>, Seq<char>>)>)
    ensures
        forall|i: int|
            0 <= i < slot_sections(ss).len() ==> exists|j: int| 0 <= j < ss.len() && ss[j] == #[trigger] slot_sections(ss)[i],
    decreases ss.len(),
{
    if ss.len() > 0 {
        let d = ss.drop_last();
        lemma_slot_sections_from(d);
        let r = slot_sections(ss);
        let rd = slot_sections(d);
        assert forall|i: int| 0 <= i < r.len() implies exists|j: int| 0 <= j < ss.len() && ss[j] == #[trigger] r[i] by {
            if i < rd.len() {
                assert(r[i] == rd[i]);
                let j = choose|j: int| 0 <= j < d.len() && d[j] == #[trigger] rd[i];
                assert(ss[j] == d[j]);
            } else {
                assert(r[i] == ss.last());
                assert(ss[ss.len() - 1] == ss.last());
            }
        }
    }
}

/// An optional string that, when present, begins and ends with no white
/// space.
pub open spec fn opt_trimmed(o: Option<String>) -> bool {
    match o {
        Some(v) => no_edge_ws(v@),
        None => true,
    }
}

/// The text values of a slot begin and end with no white space.
pub open spec fn slot_texts_trimmed(s: Slot) -> bool {
    &&& opt_trimmed(s.model_path)
    &&& opt_trimmed(s.cache_type_k)
    &&& opt_trimmed(s.cache_type_v)
    &&& opt_trimmed(s.temp)
    &&& opt_trimmed(s.top_p)
    &&& opt_trimmed(s.min_p)
    &&& opt_trimmed(s.repeat_penalty)
}

/// Every value a preset reads from a `key = value` line is the value with
/// the white space around it removed: no text setting of a parsed preset
/// (the global `host`, and each slot's model path, cache types and float
/// settings) begins or ends with white space.
pub proof fn law_preset_values_trimmed(p: Preset, path: Seq<char>, content: Seq<char>)
    requires
        spec_preset_ok(p, path, content),
    ensures
        opt_trimmed(p.global.host),
        forall|k: int| 0 <= k < p.slots@.len() ==> #[trigger] slot_texts_trimmed(p.slots@[k]),
{
    broadcast use vstd::seq_lib::group_to_multiset_ensures;

    let rl = read_lines(lines(content));
    lemma_read_lines_trimmed(lines(content));
    lemma_close_section_trimmed(rl);
    let rp = read_preset(content);
    assert(state_trimmed(rp));
    if rp.global.contains_key("host"@) {
        assert(no_edge_ws(rp.global["host"@]));
    }
    let ss = slot_sections(rp.sections);
    lemma_slot_sections_from(rp.sections);
    let unsorted = choose|unsorted: Seq<Slot>| slots_ok(unsorted, ss) && #[trigger] sort_slots(unsorted) == p.slots@;
    law_sort_slots(unsorted);
    assert forall|k: int| 0 <= k < p.slots@.len() implies #[trigger] slot_texts_trimmed(p.slots@[k]) by {
        let x = p.slots@[k];
        assert(p.slots@.contains(x));
        assert(p.slots@.to_multiset().count(x) > 0);
        assert(unsorted.contains(x));
        let j = choose|j: int| 0 <= j < unsorted.len() && unsorted[j] == x;
        assert(spec_slot_ok(unsorted[j], ss[j].0, ss[j].1));
        let q = choose|q: int| 0 <= q < rp.sections.len() && rp.sections[q] == #[trigger] ss[j];
        let m = ss[j].1;
        assert(values_trimmed(rp.sections[q].1));
        assert(values_trimmed(m));
        if m.contains_key("model"@) {
            assert(no_edge_ws(m["model"@]));
        }
        if m.contains_key("cache-type-k"@) {
            assert(no_edge_ws(m["cache-type-k"@]));
        }
        if m.contains_key("cache-type-v"@) {
            assert(no_edge_ws(m["cache-type-v"@]));
        }
        if m.contains_key("temp"@) {
            lemma_trim_no_edge_ws(m["temp"@]);
        }
        if m.contains_key("top-p"@) {
            lemma_trim_no_edge_ws(m["top-p"@]);
        }
        if m.contains_key("min-p"@) {
            lemma_trim_no_edge_ws(m["min-p"@]);
        }
        if m.contains_key("repeat-penalty"@) {
            lemma_trim_no_edge_ws(m["repeat-penalty"@]);
        }
    }
}

fn insert_slot_exec(v: &mut Vec<Slot>, x: Slot)
    ensures
        final(v)@ == insert_slot(old(v)@, x),
{
    let ghost s = v@;
    let mut j: usize = 0;
    while j < v.len() && !(x.index < v[j].index)
        invariant
            j <= v.len(),
            v@ == s,
            forall|k: int| 0 <= k < j ==> !(x.index < #[trigger] s[k].index),
        decreases v.len() - j,
    {
        j += 1;
    }
    proof {
        lemma_insert_slot_at(s, x, j as int);
    }
    v.insert(j, x);
}

proof fn lemma_insert_slot_at(s: Seq<Slot>, x: Slot, j: int)
    requires
        0 <= j <= s.len(),
        forall|k: int| 0 <= k < j ==> !(x.index < #[trigger] s[k].index),
        j == s.len() || x.index < s[j].index,
    ensures
        insert_slot(s, x) == s.insert(j, x),
    decreases s.len(),
{
    if s.len() == 0 {
        assert(s.insert(j, x) =~= seq![x]);
    } else if j == 0 {
        assert(s.insert(0, x) =~= seq![x] + s);
    } else {
        let t = s.drop_first();
        assert forall|k: int| 0 <= k < j - 1 implies !(x.index < #[trigger] t[k].index) by {
            assert(t[k] == s[k + 1]);
        }
        if j < s.len() {
            assert(t[j - 1] == s[j]);
        }
        assert(!(x.index < s[0].index));
        lemma_insert_slot_at(t, x, j - 1);
        assert(seq![s[0]] + t.insert(j - 1, x) =~= s.insert(j, x));
    }
}

/// Sections as values.
pub open spec fn sections_view(v: Seq<(String, KvMap)>) -> Seq<(Seq<char>, Map<Seq<char>, Seq<char>>)> {
    v.map_values(|p: (String, KvMap)| (p.0@, p.1@))
}

/// Reads a preset from its path and the content of its file.
pub fn parse_preset(path: &str, content: &str) -> (r: Result<Preset, PresetError>)
    ensures
        match r {
            Ok(p) => spec_preset_ok(p, path@, content@),
            Err(e) => e == PresetError::InvalidFileName && path_file_stem(path@) is None,
        },
{
    let name = match file_stem(path) {
        Some(n) => n,
        None => return Err(PresetError::InvalidFileName),
    };
    let ls = split_lines(&chars_of(content));
    let ghost lv = views(ls@);
    let mut global = KvMap::new();
    let mut section: Vec<char> = chars_of("*");
    let mut sections: Vec<(String, KvMap)> = Vec::new();
    let mut current = KvMap::new();
    let star = chars_of("*");
    let mut i: usize = 0;
    assert(lv.take(0) =~= Seq::<Seq<char>>::empty());
    assert(sections_view(sections@) =~= Seq::<(Seq<char>, Map<Seq<char>, Seq<char>>)>::empty());
    while i < ls.len()
        invariant
            i <= ls.len(),
            lv == views(ls@),
            lv == lines(content@),
            star@ == "*"@,
            read_lines(lv.take(i as int)) == (ReadState {
                global: global@,
                section: section@,
                sections: sections_view(sections@),
                current: current@,
            }),
        decreases ls.len() - i,
    {
        assert(lv.take(i + 1).drop_last() =~= lv.take(i as int));
        assert(lv.take(i + 1).last() == ls@[i as int]@);
        let t = trim_ws(&ls[i]);
        if t.len() == 0 || t[0] == '#' {
        } else if t[0] == '[' && t[t.len() - 1] == ']' {
            let name_chars = slice_chars(&t, 1, t.len() - 1);
            if chars_eq(&section, &star) {
                global = current;
            } else {
                let ghost before = sections_view(sections@);
                sections.push((string_from_chars(&section), current));
                assert(sections_view(sections@) =~= before.push((section@, current@)));
            }
            current = KvMap::new();
            section = name_chars;
        } else {
            match find_char(&t, '=') {
                Some(e) => {
                    proof {
                        crate::text::lemma_first_index_of(t@, '=');
                    }
                    let key = trim_ws(&slice_chars(&t, 0, e));
                    let value = trim_ws(&slice_chars(&t, e + 1, t.len()));
                    assert(t@.take(e as int) =~= t@.subrange(0, e as int));
                    assert(t@.skip(e + 1) =~= t@.subrange(e + 1, t@.len() as int));
                    current.insert(string_from_chars(&key), string_from_chars(&value));
                },
                None => {
                    proof {
                        crate::text::lemma_first_index_of(t@, '=');
                    }
                },
            }
        }
        i += 1;
    }
    assert(lv.take(ls.len() as int) =~= lv);
    if chars_eq(&section, &star) {
        global = current;
    } else {
        let ghost before = sections_view(sections@);
        sections.push((string_from_chars(&section), current));
        assert(sections_view(sections@) =~= before.push((section@, current@)));
    }
    let ghost all = sections_view(sections@);
    let mut slots: Vec<Slot> = Vec::new();
    let ghost mut unsorted: Seq<Slot> = Seq::empty();
    let mut k: usize = 0;
    assert(all.take(0) =~= Seq::<(Seq<char>, Map<Seq<char>, Seq<char>>)>::empty());
    while k < sections.len()
        invariant
            k <= sections.len(),
            all == sections_view(sections@),
            star@ == "*"@,
            slots_ok(unsorted, slot_sections(all.take(k as int))),
            slots@ == sort_slots(unsorted),
        decreases sections.len() - k,
    {
        assert(all.take(k + 1).drop_last() =~= all.take(k as int));
        assert(all.take(k + 1).last() == all[k as int]);
        if !chars_eq(&chars_of(sections[k].0.as_str()), &star) {
            let slot = parse_slot_section(sections[k].0.as_str(), &sections[k].1);
            proof {
                let old_unsorted = unsorted;
                unsorted = unsorted.push(slot);
                assert(unsorted.drop_last() =~= old_unsorted);
                let ss = slot_sections(all.take(k + 1));
                assert(ss == slot_sections(all.take(k as int)).push(all[k as int]));
                assert forall|j: int| 0 <= j < unsorted.len() implies spec_slot_ok(
                    #[trigger] unsorted[j],
                    ss[j].0,
                    ss[j].1,
                ) by {
                    if j < old_unsorted.len() {
                        assert(unsorted[j] == old_unsorted[j]);
                    }
                }
            }
            insert_slot_exec(&mut slots, slot);
        }
        k += 1;
    }
    assert(all.take(sections.len() as int) =~= all);
    let p = Preset {
        name,
        path: String::from_str(path),
        global: parse_global_section(&global),
        slots,
    };
    assert(sort_slots(unsorted) == p.slots@);
    Ok(p)
}

/// The quantisation suffixes a model file name may end with.
pub open spec fn quant_suffixes() -> Seq<Seq<char>> {
    seq![
        "-q4_k_m"@,
        "-Q4_K_M"@,
        "-q4-k-m"@,
        "-q5_k_m"@,
        "-Q5_K_M"@,
        "-q5-k-m"@,
        "-q8_0"@,
        "-Q8_0"@,
        "-q8-0"@,
        "-q3_k_s"@,
        "-Q3_K_S"@,
        "-q2_k"@,
        "-Q2_K"@,
    ]
}

/// `s` with each suffix of `sufs` stripped once, in order, where it ends
/// the string at that point.
pub open spec fn strip_suffixes(s: Seq<char>, sufs: Seq<Seq<char>>) -> Seq<char>
    decreases sufs.len(),
{
    if sufs.len() == 0 {
        s
    } else {
        let prev = strip_suffixes(s, sufs.drop_last());
        if has_suffix(prev, sufs.last()) {
            prev.take(prev.len() - sufs.last().len())
        } else {
            prev
        }
    }
}

/// The model name a model file's path gives: its file stem (empty without
/// one) with the quantisation suffixes stripped.
pub open spec fn spec_model_name_from_path(path: Seq<char>) -> Seq<char> {
    strip_suffixes(
        match path_file_stem(path) {
            Some(s) => s,
            None => Seq::empty(),
        },
        quant_suffixes(),
    )
}

fn quant_suffix_list() -> (r: Vec<Vec<char>>)
    ensures
        views(r@) == quant_suffixes(),
{
    let v: Vec<Vec<char>> = vec![
        chars_of("-q4_k_m"),
        chars_of("-Q4_K_M"),
        chars_of("-q4-k-m"),
        chars_of("-q5_k_m"),
        chars_of("-Q5_K_M"),
        chars_of("-q5-k-m"),
        chars_of("-q8_0"),
        chars_of("-Q8_0"),
        chars_of("-q8-0"),
        chars_of("-q3_k_s"),
        chars_of("-Q3_K_S"),
        chars_of("-q2_k"),
        chars_of("-Q2_K"),
    ];
    assert(views(v@) =~= quant_suffixes());
    v
}

/// The model name of a model file.
pub fn model_name_from_path(path: &str) -> (r: String)
    ensures
        r@ == spec_model_name_from_path(path@),
{
    let mut s: Vec<char> = match file_stem(path) {
        Some(st) => chars_of(st.as_str()),
        None => Vec::new(),
    };
    let sufs = quant_suffix_list();
    let ghost start = s@;
    let mut i: usize = 0;
    assert(views(sufs@).take(0) =~= Seq::<Seq<char>>::empty());
    while i < sufs.len()
        invariant
            i <= sufs.len(),
            views(sufs@) == quant_suffixes(),
            s@ == strip_suffixes(start, views(sufs@).take(i as int)),
        decreases sufs.len() - i,
    {
        assert(views(sufs@).take(i + 1).drop_last() =~= views(sufs@).take(i as int));
        assert(views(sufs@).take(i + 1).last() == sufs@[i as int]@);
        if ends_with(&s, &sufs[i]) {
            let cut = s.len() - sufs[i].len();
            s = slice_chars(&s, 0, cut);
            assert(s@ =~= strip_suffixes(start, views(sufs@).take(i as int)).take(cut as int));
        }
        i += 1;
    }
    assert(views(sufs@).take(sufs.len() as int) =~= views(sufs@));
    string_from_chars(&s)
}

/// The file of the preset named `name`.
pub open spec fn spec_preset_file(home: Seq<char>, name: Seq<char>) -> Seq<char> {
    home + "/.config/muthr/llama/presets/"@ + name + ".ini"@
}

/// Where the preset named `name` is kept.
pub fn preset_file(home: &str, name: &str) -> (r: String)
    ensures
        r@ == spec_preset_file(home@, name@),
{
    let mut s = String::from_str(home);
    s.append("/.config/muthr/llama/presets/");
    s.append(name);
    s.append(".ini");
    s
}

/// The opencode configuration named `name`.
pub open spec fn spec_opencode_config_file(home: Seq<char>, name: Seq<char>) -> Seq<char> {
    home + "/.config/opencode/opencode-"@ + name + ".json"@
}

/// Where the opencode configuration named `name` is kept.
pub fn opencode_config_file(home: &str, name: &str) -> (r: String)
    ensures
        r@ == spec_opencode_config_file(home@, name@),
{
    let mut s = String::from_str(home);
    s.append("/.config/opencode/opencode-");
    s.append(name);
    s.append(".json");
    s
}

/// The names of a path without its `.` names.
pub open spec fn without_dots(names: Seq<Seq<char>>) -> Seq<Seq<char>>
    decreases names.len(),
{
    if names.len() == 0 {
        names
    } else if names.last() == "."@ {
        without_dots(names.drop_last())
    } else {
        without_dots(names.drop_last()).push(names.last())
    }
}

/// A path built by pushing names onto `base` (`PathBuf::push`).
pub open spec fn push_names(base: Seq<char>, names: Seq<Seq<char>>) -> Seq<char>
    decreases names.len(),
{
    if names.len() == 0 {
        base
    } else {
        join_path(push_names(base, names.drop_last()), names.last())
    }
}

/// A path rebuilt from its components, a leading `~` name replaced by the
/// home directory (or dropped when there is none): an absolute path starts
/// at `/`, a relative path that starts with `.` keeps it, and the other
/// `.` names are dropped.
pub open spec fn spec_expand_home(p: Seq<char>, home: Option<Seq<char>>) -> Seq<char> {
    let names = path_names(p);
    let plain = without_dots(names);
    if rooted(p) {
        push_names("/"@, plain)
    } else if names.len() > 0 && names[0] == "."@ {
        push_names("."@, plain)
    } else if plain.len() > 0 && plain[0] == "~"@ {
        push_names(
            match home {
                Some(h) => h,
                None => Seq::empty(),
            },
            plain.skip(1),
        )
    } else {
        push_names(Seq::empty(), plain)
    }
}

fn push_name(out: &mut Vec<char>, name: &Vec<char>)
    ensures
        final(out)@ == join_path(old(out)@, name@),
{
    if !(out.len() == 0 || out[out.len() - 1] == '/') {
        push_str(out, "/");
    }
    push_all(out, name);
}

/// Expands a leading `~` of a path to the home directory.
pub fn expand_home(path: &str, home: Option<&str>) -> (r: String)
    ensures
        r@ == spec_expand_home(
            path@,
            match home {
                Some(h) => Some(h@),
                None => None,
            },
        ),
{
    let p = chars_of(path);
    let names = split_nonempty(&p, '/');
    let ghost ns = views(names@);
    let dot = chars_of(".");
    let mut plain: Vec<Vec<char>> = Vec::new();
    let mut i: usize = 0;
    assert(ns.take(0) =~= Seq::<Seq<char>>::empty());
    while i < names.len()
        invariant
            i <= names.len(),
            ns == views(names@),
            dot@ == "."@,
            views(plain@) == without_dots(ns.take(i as int)),
        decreases names.len() - i,
    {
        assert(ns.take(i + 1).drop_last() =~= ns.take(i as int));
        assert(ns.take(i + 1).last() == names@[i as int]@);
        if !chars_eq(&names[i], &dot) {
            let ghost before = views(plain@);
            plain.push(names[i].clone());
            assert(views(plain@) =~= before.push(names@[i as int]@));
        }
        i += 1;
    }
    assert(ns.take(names.len() as int) =~= ns);
    let ghost pl = views(plain@);
    let (mut out, start): (Vec<char>, usize) = if p.len() > 0 && p[0] == '/' {
        (chars_of("/"), 0)
    } else if names.len() > 0 && chars_eq(&names[0], &dot) {
        (chars_of("."), 0)
    } else if plain.len() > 0 && chars_eq(&plain[0], &chars_of("~")) {
        match home {
            Some(h) => (chars_of(h), 1),
            None => (Vec::new(), 1),
        }
    } else {
        (Vec::new(), 0)
    };
    let ghost base = out@;
    let mut k = start;
    assert(pl.skip(start as int).take(0) =~= Seq::<Seq<char>>::empty());
    while k < plain.len()
        invariant
            start <= k <= plain.len(),
            pl == views(plain@),
            out@ == push_names(base, pl.skip(start as int).take(k - start)),
        decreases plain.len() - k,
    {
        let ghost rest = pl.skip(start as int);
        assert(rest.take(k + 1 - start).drop_last() =~= rest.take(k - start));
        assert(rest.take(k + 1 - start).last() == plain@[k as int]@);
        push_name(&mut out, &plain[k]);
        k += 1;
    }
    assert(pl.skip(start as int).take(plain.len() - start) =~= pl.skip(start as int));
    assert(pl.skip(0) =~= pl);
    string_from_chars(&out)
}

impl crate::order::Keyed for Preset {
    open spec fn key_view(&self) -> Seq<char> {
        self.name@
    }

    fn key_chars(&self) -> (r: Vec<char>) {
        chars_of(self.name.as_str())
    }
}

/// The presets read, sorted by name (stably).
pub fn sort_presets_by_name(presets: Vec<Preset>) -> (r: Vec<Preset>)
    ensures
        r@ == crate::order::sort_keyed(presets@),
{
    crate::order::stable_sort_by_key(presets)
}

} // verus!
