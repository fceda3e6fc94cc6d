//! What a whole binary must be, and why and where it is rejected.

use crate::encode;
use crate::fault::Fault;
use crate::fault_laws;
use crate::grammar;
use crate::grammar::{Progress, Section};
use crate::leb;
use crate::module::ModuleModel;
use crate::parse::{ParseErrorKind, MAGIC, MAX_KNOWN_SECTION_ID, VERSION};
use crate::parse_laws;
use crate::spelling;
use vstd::prelude::*;

verus! {

/// The eight bytes that open every binary: `\0asm`, then the version.
pub open spec fn opening() -> Seq<u8> {
    seq![0x00u8, 0x61u8, 0x73u8, 0x6Du8, 0x01u8, 0x00u8, 0x00u8, 0x00u8]
}

proof fn lemma_opening()
    ensures
        MAGIC@ + VERSION@ == opening(),
{
    assert(MAGIC@ + VERSION@ =~= opening());
}

/// What a header that is right for its first `n` bytes comes to: it is
/// accepted if these are all eight; it breaks off where the input ends; and a
/// wrong byte makes it no binary at all, or one of another version.
pub proof fn law_header_exactly(bytes: Seq<u8>, n: int)
    requires
        0 <= n <= bytes.len(),
        n <= 8,
        bytes.take(n) == opening().take(n),
        n == 8 || n == bytes.len() || bytes[n] != opening()[n],
    ensures
        grammar::header(bytes) == if n == 8 {
            Ok::<int, Fault<ParseErrorKind>>(8)
        } else if n == bytes.len() {
            Err(Fault { offset: n, kind: ParseErrorKind::UnexpectedEof })
        } else if n < 4 {
            Err(Fault { offset: 0, kind: ParseErrorKind::NotWasm })
        } else {
            Err(Fault { offset: 4, kind: ParseErrorKind::UnsupportedVersion })
        },
{
    lemma_opening();
    let expected = opening();
    assert forall|i: int| 0 <= i < n implies bytes[i] == expected[i] by {
        assert(bytes.take(n)[i] == expected.take(n)[i]);
    }
    assert forall|i: int| 0 <= i < 4 implies #[trigger] MAGIC@[i] == expected[i] by {
        assert((MAGIC@ + VERSION@)[i] == expected[i]);
    }
    assert forall|i: int| 0 <= i < 4 implies #[trigger] VERSION@[i] == expected[4 + i] by {
        assert((MAGIC@ + VERSION@)[4 + i] == expected[4 + i]);
    }
    if n < 8 && n < bytes.len() {
        if n < 4 {
            assert(MAGIC@[n] != bytes[0 + n]);
        } else {
            assert(VERSION@[n - 4] != bytes[4 + (n - 4)]);
        }
    }
}

/// Whether sections stand one after the other from `from` to the end.
pub open spec fn tiled(bytes: Seq<u8>, from: int, sections: Seq<Section>) -> bool {
    &&& forall|i: int|
        0 <= i < sections.len() ==> spelling::section_spelled(
            bytes,
            if i == 0 {
                from
            } else {
                sections[i - 1].end
            },
            #[trigger] sections[i],
        )
    &&& bytes.len() == if sections.len() == 0 {
        from
    } else {
        sections.last().end
    }
}

/// Sections fill what one section and the others after it fill.
proof fn lemma_tiled_step(bytes: Seq<u8>, from: int, s: Section, rest: Seq<Section>)
    ensures
        tiled(bytes, from, seq![s] + rest) <==> spelling::section_spelled(bytes, from, s) && tiled(
            bytes,
            s.end,
            rest,
        ),
{
    let sections = seq![s] + rest;
    assert(sections[0] == s);
    if tiled(bytes, from, sections) {
        assert forall|i: int| 0 <= i < rest.len() implies spelling::section_spelled(
            bytes,
            if i == 0 {
                s.end
            } else {
                rest[i - 1].end
            },
            #[trigger] rest[i],
        ) by {
            assert(rest[i] == sections[i + 1]);
            assert(i > 0 ==> rest[i - 1] == sections[i]);
        }
        assert(spelling::section_spelled(bytes, from, sections[0]));
    }
    if spelling::section_spelled(bytes, from, s) && tiled(bytes, s.end, rest) {
        assert forall|i: int| 0 <= i < sections.len() implies spelling::section_spelled(
            bytes,
            if i == 0 {
                from
            } else {
                sections[i - 1].end
            },
            #[trigger] sections[i],
        ) by {
            if i > 0 {
                assert(sections[i] == rest[i - 1]);
                assert(i > 1 ==> sections[i - 1] == rest[i - 2]);
            }
        }
    }
}

/// The layout of a binary is the one way in which sections fill it.
pub proof fn law_layout_exactly(bytes: Seq<u8>, pos: int, sections: Seq<Section>)
    requires
        0 <= pos <= bytes.len(),
    ensures
        parse_laws::layout_from(bytes, pos) == Some(sections) <==> tiled(bytes, pos, sections),
    decreases bytes.len() - pos,
{
    if sections.len() == 0 {
        assert(sections =~= Seq::empty());
        if pos < bytes.len() {
            if let Ok(s) = grammar::section_at(bytes, pos) {
                if let Some(rest) = parse_laws::layout_from(bytes, s.end) {
                    assert((seq![s] + rest).len() > 0);
                }
            }
        }
    } else {
        let first = sections[0];
        let rest = sections.drop_first();
        assert(seq![first] + rest =~= sections);
        lemma_tiled_step(bytes, pos, first, rest);
        if pos < bytes.len() {
            grammar::lemma_section_bounds(bytes, pos);
            spelling::law_section_exactly(bytes, pos, first);
            if grammar::section_at(bytes, pos) == Ok::<Section, Fault<ParseErrorKind>>(first) {
                law_layout_exactly(bytes, first.end, rest);
            }
            if let Ok(s) = grammar::section_at(bytes, pos) {
                if let Some(later) = parse_laws::layout_from(bytes, s.end) {
                    assert((seq![s] + later)[0] == s);
                    assert((seq![s] + later).drop_first() =~= later);
                }
            }
        }
    }
}

/// Whether `names` are the names of the custom sections among `sections`, in
/// order. What follows a name in its section may be anything.
pub open spec fn named(bytes: Seq<u8>, sections: Seq<Section>, names: Seq<Seq<char>>) -> bool
    decreases sections.len(),
{
    if sections.len() == 0 {
        names.len() == 0
    } else {
        let s = sections[0];
        if s.id == 0 {
            &&& names.len() > 0
            &&& exists|end: int| #[trigger]
                spelling::name_spelled(bytes.subrange(s.start, s.end), 0, end, names[0])
            &&& named(bytes, sections.drop_first(), names.drop_first())
        } else {
            named(bytes, sections.drop_first(), names)
        }
    }
}

/// Whether a section of this id is one that is skipped: a table, memory,
/// global, element, code, data or data-count section.
pub open spec fn is_passed_over(id: u8) -> bool {
    id == 4 || id == 5 || id == 6 || id == 9 || id == 10 || id == 11 || id == 12
}

/// The ids of the skipped sections among `sections`, in order.
pub open spec fn passed_over(sections: Seq<Section>) -> Seq<u8>
    decreases sections.len(),
{
    if sections.len() == 0 {
        Seq::empty()
    } else {
        let rest = passed_over(sections.drop_first());
        if is_passed_over(sections[0].id) {
            seq![sections[0].id] + rest
        } else {
            rest
        }
    }
}

/// Whether these sections, in the order the format requires, make up the
/// module: each holds what the module has of it, whatever the content of
/// skipped sections, and the module has nothing of sections that are missing.
pub open spec fn made_of(bytes: Seq<u8>, sections: Seq<Section>, m: ModuleModel) -> bool {
    &&& parse_laws::in_order(sections, 0)
    &&& forall|i: int|
        0 <= i < sections.len() ==> parse_laws::holds_content(bytes, #[trigger] sections[i], m)
    &&& !parse_laws::has_section(sections, 1) ==> m.types.len() == 0
    &&& !parse_laws::has_section(sections, 2) ==> m.imports.len() == 0
    &&& !parse_laws::has_section(sections, 3) ==> m.funcs.len() == 0
    &&& !parse_laws::has_section(sections, 7) ==> m.exports.len() == 0
    &&& !parse_laws::has_section(sections, 8) ==> m.start is None
    &&& named(bytes, sections, m.custom_sections)
    &&& m.skipped_sections == passed_over(sections)
}

proof fn lemma_passed_over(sections: Seq<Section>)
    ensures
        passed_over(sections) == parse_laws::skipped_ids(sections),
    decreases sections.len(),
{
    if sections.len() > 0 {
        lemma_passed_over(sections.drop_first());
    }
}

/// The names that were recorded are those that the custom sections spell.
proof fn lemma_named(bytes: Seq<u8>, pos: int, done: Progress)
    requires
        0 <= pos <= bytes.len(),
        grammar::sections_from(bytes, pos, done) is Ok,
        parse_laws::layout_from(bytes, pos) is Some,
    ensures
        ({
            let sections = parse_laws::layout_from(bytes, pos)->Some_0;
            named(bytes, sections, parse_laws::custom_names(bytes, sections))
        }),
    decreases bytes.len() - pos,
{
    if pos < bytes.len() {
        grammar::lemma_section_bounds(bytes, pos);
        let s = grammar::section_at(bytes, pos)->Ok_0;
        let more = grammar::advance(done, bytes, pos, s)->Ok_0;
        lemma_named(bytes, s.end, more);
        let rest = parse_laws::layout_from(bytes, s.end)->Some_0;
        let sections = seq![s] + rest;
        assert(sections.drop_first() =~= rest);
        let names = parse_laws::custom_names(bytes, sections);
        if s.id == 0 {
            let body = bytes.subrange(s.start, s.end);
            let (name, end) = grammar::name_at(body, 0)->Ok_0;
            spelling::law_name_exactly(body, 0, end, name);
            assert(names.drop_first() =~= parse_laws::custom_names(bytes, rest));
            assert(spelling::name_spelled(body, 0, end, names[0]));
        }
    }
}

/// Sections that make up the rest of a module complete it.
#[verifier::rlimit(40)]
proof fn lemma_made_of(
    bytes: Seq<u8>,
    pos: int,
    done: Progress,
    sections: Seq<Section>,
    names: Seq<Seq<char>>,
    m: ModuleModel,
)
    requires
        0 <= pos <= bytes.len(),
        parse_laws::layout_from(bytes, pos) == Some(sections),
        parse_laws::in_order(sections, done.last),
        forall|i: int|
            0 <= i < sections.len() ==> parse_laws::holds_content(
                bytes,
                #[trigger] sections[i],
                m,
            ),
        parse_laws::agree_where_missing(sections, m, done.m),
        named(bytes, sections, names),
        m.custom_sections == done.m.custom_sections + names,
        m.skipped_sections == done.m.skipped_sections + passed_over(sections),
    ensures
        grammar::sections_from(bytes, pos, done) matches Ok(all) && all.m == m,
    decreases bytes.len() - pos,
{
    if pos < bytes.len() {
        grammar::lemma_section_bounds(bytes, pos);
        let s = grammar::section_at(bytes, pos)->Ok_0;
        let rest = parse_laws::layout_from(bytes, s.end)->Some_0;
        assert(sections == seq![s] + rest);
        assert(sections[0] == s);
        assert(sections.drop_first() =~= rest);
        assert(parse_laws::holds_content(bytes, sections[0], m));
        let body = bytes.subrange(s.start, s.end);
        parse_laws::lemma_has_section(s, rest);
        let later = if s.id == 0 {
            names.drop_first()
        } else {
            names
        };
        if s.id == 0 {
            let end = choose|end: int| #[trigger]
                spelling::name_spelled(body, 0, end, names[0]);
            spelling::law_name_exactly(body, 0, end, names[0]);
        }
        assert(s.id >= 2 ==> !parse_laws::has_section(sections, 1));
        let more = grammar::advance(done, bytes, pos, s)->Ok_0;
        assert(grammar::advance(done, bytes, pos, s) is Ok);
        assert forall|i: int| 0 <= i < rest.len() implies parse_laws::holds_content(
            bytes,
            #[trigger] rest[i],
            m,
        ) by {
            assert(rest[i] == sections[i + 1]);
        }
        assert(parse_laws::in_order(rest, more.last)) by {
            assert forall|i: int| 0 <= i < rest.len() implies (#[trigger] rest[i]).id
                <= MAX_KNOWN_SECTION_ID && (rest[i].id == 0 || rest[i].id > more.last) by {
                assert(rest[i] == sections[i + 1]);
                assert(s.id != 0 && sections[i + 1].id != 0 ==> sections[0].id < sections[i
                    + 1].id);
            }
            assert forall|i: int, j: int|
                0 <= i < j < rest.len() && (#[trigger] rest[i]).id != 0 && (
                #[trigger] rest[j]).id != 0 implies rest[i].id < rest[j].id by {
                assert(rest[i] == sections[i + 1] && rest[j] == sections[j + 1]);
            }
        }
        assert(parse_laws::agree_where_missing(rest, m, more.m)) by {
            assert(parse_laws::has_section(sections, 1) <==> s.id == 1
                || parse_laws::has_section(rest, 1));
            assert(parse_laws::has_section(sections, 2) <==> s.id == 2
                || parse_laws::has_section(rest, 2));
            assert(parse_laws::has_section(sections, 3) <==> s.id == 3
                || parse_laws::has_section(rest, 3));
            assert(parse_laws::has_section(sections, 7) <==> s.id == 7
                || parse_laws::has_section(rest, 7));
            assert(parse_laws::has_section(sections, 8) <==> s.id == 8
                || parse_laws::has_section(rest, 8));
        }
        assert(more.m.custom_sections + later =~= m.custom_sections);
        assert(more.m.skipped_sections + passed_over(rest) =~= m.skipped_sections);
        lemma_made_of(bytes, s.end, more, rest, later, m);
    } else {
        assert(sections =~= Seq::empty());
        assert(!parse_laws::has_section(sections, 1) && !parse_laws::has_section(sections, 2)
            && !parse_laws::has_section(sections, 3) && !parse_laws::has_section(sections, 7)
            && !parse_laws::has_section(sections, 8));
        assert(done.m =~= m);
    }
}

/// A binary parses to a module exactly if it is the header followed by
/// sections, in order and up to its end, that make up the module.
pub proof fn law_parse_exactly(bytes: Seq<u8>, m: ModuleModel)
    ensures
        grammar::module(bytes) == Ok::<ModuleModel, Fault<ParseErrorKind>>(m) <==> {
            &&& bytes.len() >= 8
            &&& bytes.take(8) == opening()
            &&& exists|sections: Seq<Section>| #[trigger]
                tiled(bytes, 8, sections) && made_of(bytes, sections, m)
        },
{
    lemma_opening();
    parse_laws::law_header_is_the_first_eight_bytes(bytes);
    if grammar::module(bytes) == Ok::<ModuleModel, Fault<ParseErrorKind>>(m) {
        parse_laws::law_sections_in_order(bytes);
        let sections = parse_laws::layout_from(bytes, 8)->Some_0;
        law_layout_exactly(bytes, 8, sections);
        lemma_named(bytes, 8, Progress::none());
        lemma_passed_over(sections);
        assert(tiled(bytes, 8, sections) && made_of(bytes, sections, m));
    }
    if bytes.len() >= 8 && bytes.take(8) == opening() && exists|sections: Seq<Section>|
        #[trigger] tiled(bytes, 8, sections) && made_of(bytes, sections, m) {
        let sections = choose|sections: Seq<Section>| #[trigger]
            tiled(bytes, 8, sections) && made_of(bytes, sections, m);
        law_layout_exactly(bytes, 8, sections);
        let none = Progress::none();
        assert(m.types.len() == 0 ==> m.types =~= none.m.types);
        assert(m.imports.len() == 0 ==> m.imports =~= none.m.imports);
        assert(m.funcs.len() == 0 ==> m.funcs =~= none.m.funcs);
        assert(m.exports.len() == 0 ==> m.exports =~= none.m.exports);
        assert(none.m.custom_sections + m.custom_sections =~= m.custom_sections);
        assert(none.m.skipped_sections + passed_over(sections) =~= m.skipped_sections);
        lemma_made_of(bytes, 8, none, sections, m.custom_sections, m);
    }
}

/// Whether `bytes` are exactly one section of that id. Its content may be
/// anything, of any length.
pub open spec fn is_one_section(bytes: Seq<u8>, id: u8) -> bool {
    exists|s: Section| #[trigger]
        spelling::section_spelled(bytes, 0, s) && s.id == id && s.end == bytes.len()
}

proof fn lemma_one_section(bytes: Seq<u8>, id: u8)
    requires
        is_one_section(bytes, id),
    ensures
        bytes.len() > 0,
        bytes[0] == id,
        grammar::section_at(bytes, 0) matches Ok(s) && s.id == id && s.end == bytes.len(),
{
    let s = choose|s: Section| #[trigger]
        spelling::section_spelled(bytes, 0, s) && s.id == id && s.end == bytes.len();
    spelling::law_section_exactly(bytes, 0, s);
}

/// A skipped section never makes parsing fail: after a binary that parses and
/// that has no section of the same or a greater id, it only adds its id to the
/// module, whatever its content and however long that is.
pub proof fn law_skipped_section_is_recorded(before: Seq<u8>, section: Seq<u8>, id: u8)
    requires
        grammar::module(before) is Ok,
        parse_laws::layout_from(before, 8) matches Some(sections) && forall|i: int|
            0 <= i < sections.len() ==> (#[trigger] sections[i]).id < id,
        is_passed_over(id),
        is_one_section(section, id),
    ensures
        ({
            let m = grammar::module(before)->Ok_0;
            grammar::module(before + section) == Ok::<ModuleModel, Fault<ParseErrorKind>>(
                ModuleModel { skipped_sections: m.skipped_sections.push(id), ..m },
            )
        }),
{
    lemma_one_section(section, id);
    parse_laws::law_header_is_the_first_eight_bytes(before);
    parse_laws::lemma_parse_then(before, section);
    let done = grammar::sections_from(before, 8, Progress::none())->Ok_0;
    lemma_last_section(before, 8, Progress::none());
    let s = grammar::section_at(section, 0)->Ok_0;
    let more = grammar::advance(done, section, 0, s)->Ok_0;
    assert(grammar::sections_from(section, s.end, more) is Ok);
}

/// The same of a section that is written out: its id, its size, its content.
pub proof fn law_skipped_content_may_be_anything(before: Seq<u8>, id: u8, content: Seq<u8>)
    requires
        grammar::module(before) is Ok,
        parse_laws::layout_from(before, 8) matches Some(sections) && forall|i: int|
            0 <= i < sections.len() ==> (#[trigger] sections[i]).id < id,
        is_passed_over(id),
        content.len() <= u32::MAX,
    ensures
        ({
            let m = grammar::module(before)->Ok_0;
            let size = leb::encode_unsigned(content.len() as int);
            grammar::module(before + (seq![id] + (size + content))) == Ok::<
                ModuleModel,
                Fault<ParseErrorKind>,
            >(ModuleModel { skipped_sections: m.skipped_sections.push(id), ..m })
        }),
{
    let section = encode::encode_section(id, content);
    encode::lemma_section_reads_back(id, content);
    let s = grammar::section_at(section, 0)->Ok_0;
    spelling::law_section_exactly(section, 0, s);
    assert(is_one_section(section, id));
    law_skipped_section_is_recorded(before, section, id);
}

/// A custom section is its name and then anything: after a binary that parses
/// it only adds its name to the module.
pub proof fn law_custom_section_is_recorded(before: Seq<u8>, name: Seq<char>, payload: Seq<u8>)
    requires
        grammar::module(before) is Ok,
        encode::encode_name(name).len() + payload.len() <= u32::MAX,
    ensures
        ({
            let m = grammar::module(before)->Ok_0;
            let content = encode::encode_name(name) + payload;
            let size = leb::encode_unsigned(content.len() as int);
            grammar::module(before + (seq![0x00u8] + (size + content))) == Ok::<
                ModuleModel,
                Fault<ParseErrorKind>,
            >(ModuleModel { custom_sections: m.custom_sections.push(name), ..m })
        }),
{
    let content = encode::encode_name(name) + payload;
    let section = encode::encode_section(0, content);
    encode::lemma_section_reads_back(0, content);
    encode::lemma_stands_at_start(encode::encode_name(name), payload);
    encode::law_name_round_trip(name, content, 0);
    parse_laws::lemma_parse_then(before, section);
    let done = grammar::sections_from(before, 8, Progress::none())->Ok_0;
    parse_laws::lemma_custom_section_adds_its_name(section, name, done);
}

/// The id that later sections must exceed is that of a section, or none has
/// been seen.
proof fn lemma_last_section(bytes: Seq<u8>, pos: int, done: Progress)
    requires
        0 <= pos <= bytes.len(),
        done.last <= MAX_KNOWN_SECTION_ID,
        grammar::sections_from(bytes, pos, done) is Ok,
    ensures
        ({
            let all = grammar::sections_from(bytes, pos, done)->Ok_0;
            let sections = parse_laws::layout_from(bytes, pos)->Some_0;
            &&& parse_laws::layout_from(bytes, pos) is Some
            &&& all.last == done.last || parse_laws::has_section(sections, all.last)
            &&& forall|i: int| 0 <= i < sections.len() ==> (#[trigger] sections[i]).id <= all.last
        }),
    decreases bytes.len() - pos,
{
    parse_laws::lemma_layout(bytes, pos, done);
    if pos < bytes.len() {
        grammar::lemma_section_bounds(bytes, pos);
        let s = grammar::section_at(bytes, pos)->Ok_0;
        let more = grammar::advance(done, bytes, pos, s)->Ok_0;
        lemma_last_section(bytes, s.end, more);
        parse_laws::lemma_has_section(s, parse_laws::layout_from(bytes, s.end)->Some_0);
    }
}

/// A fault counted from where the content of a section starts.
pub open spec fn content_fault(
    fault: Fault<ParseErrorKind>,
    section: Section,
) -> Fault<ParseErrorKind> {
    Fault { offset: fault.offset - section.start, kind: fault.kind }
}

/// Whether a binary breaks at the section whose id stands at `at`, where
/// `done` is the module before it and `sections` are the sections before it.
pub open spec fn breaks_at(
    bytes: Seq<u8>,
    at: int,
    sections: Seq<Section>,
    done: ModuleModel,
    fault: Fault<ParseErrorKind>,
) -> bool {
    ||| fault_laws::section_breaks(bytes, at, fault)
    ||| exists|s: Section| #[trigger]
        spelling::section_spelled(bytes, at, s) && {
            let body = bytes.subrange(s.start, s.end);
            let inner = content_fault(fault, s);
            if s.id == 0 {
                fault_laws::name_breaks(body, 0, inner)
            } else if s.id > 12 {
                fault == Fault { offset: at, kind: ParseErrorKind::UnknownSectionId(s.id) }
            } else if exists|i: int|
                0 <= i < sections.len() && (#[trigger] sections[i]).id >= s.id {
                fault == Fault { offset: at, kind: ParseErrorKind::SectionOutOfOrder }
            } else if s.id == 1 {
                fault_laws::type_section_breaks(body, inner)
            } else if s.id == 2 {
                fault_laws::import_section_breaks(body, done.types.len(), inner)
            } else if s.id == 3 {
                fault_laws::function_section_breaks(body, done.types.len(), inner)
            } else if s.id == 7 {
                fault_laws::export_section_breaks(body, inner)
            } else if s.id == 8 {
                fault_laws::start_section_breaks(body, inner)
            } else {
                false
            }
        }
}

/// The section that parsing breaks at.
proof fn lemma_break(bytes: Seq<u8>, pos: int, done: Progress) -> (at: int)
    requires
        0 <= pos <= bytes.len(),
        grammar::sections_from(bytes, pos, done) is Err,
    ensures
        pos <= at < bytes.len(),
        grammar::sections_from(bytes.take(at), pos, done) matches Ok(more) && (
        match grammar::section_at(bytes, at) {
            Ok(s) => grammar::advance(more, bytes, at, s),
            Err(fault) => Err(fault),
        }) == grammar::sections_from(bytes, pos, done),
    decreases bytes.len() - pos,
{
    grammar::lemma_section_bounds(bytes, pos);
    if let Ok(s) = grammar::section_at(bytes, pos) {
        if let Ok(more) = grammar::advance(done, bytes, pos, s) {
            let at = lemma_break(bytes, s.end, more);
            let before = bytes.take(at);
            assert(bytes.take(s.start) =~= before.take(s.start));
            parse_laws::lemma_section_looks_no_further(bytes, before, pos);
            assert(bytes.subrange(s.start, s.end) =~= before.subrange(s.start, s.end));
            at
        } else {
            pos
        }
    } else {
        pos
    }
}

/// Why and where a binary with a good header is rejected: everything before
/// one of its sections parses, and that section breaks.
pub proof fn law_parse_faults(bytes: Seq<u8>)
    requires
        bytes.len() >= 8,
        bytes.take(8) == opening(),
    ensures
        grammar::module(bytes) matches Err(fault) ==> exists|at: int|
            8 <= at < bytes.len() && #[trigger] grammar::module(bytes.take(at)) is Ok && breaks_at(
                bytes,
                at,
                parse_laws::layout_from(bytes.take(at), 8)->Some_0,
                grammar::module(bytes.take(at))->Ok_0,
                fault,
            ),
{
    lemma_opening();
    parse_laws::law_header_is_the_first_eight_bytes(bytes);
    if let Err(fault) = grammar::module(bytes) {
        let none = Progress::none();
        let at = lemma_break(bytes, 8, none);
        let before = bytes.take(at);
        assert(before.take(8) =~= bytes.take(8));
        parse_laws::law_header_is_the_first_eight_bytes(before);
        let done = grammar::sections_from(before, 8, none)->Ok_0;
        lemma_last_section(before, 8, none);
        let sections = parse_laws::layout_from(before, 8)->Some_0;
        fault_laws::law_section_faults(bytes, at);
        if let Ok(s) = grammar::section_at(bytes, at) {
            spelling::law_section_exactly(bytes, at, s);
            lemma_section_fault(bytes, at, s, sections, done, fault);
        }
        assert(grammar::module(bytes.take(at)) is Ok);
    }
}

proof fn lemma_section_fault(
    bytes: Seq<u8>,
    at: int,
    s: Section,
    sections: Seq<Section>,
    done: Progress,
    fault: Fault<ParseErrorKind>,
)
    requires
        spelling::section_spelled(bytes, at, s),
        grammar::advance(done, bytes, at, s) == Err::<Progress, Fault<ParseErrorKind>>(fault),
        done.last == 0 || parse_laws::has_section(sections, done.last),
        forall|i: int| 0 <= i < sections.len() ==> (#[trigger] sections[i]).id <= done.last,
    ensures
        breaks_at(bytes, at, sections, done.m, fault),
{
    let body = bytes.subrange(s.start, s.end);
    let inner = content_fault(fault, s);
    assert(inner.shifted(s.start) == fault);
    fault_laws::law_name_faults(body, 0);
    fault_laws::law_type_section_faults(body);
    fault_laws::law_import_section_faults(body, done.m.types.len());
    fault_laws::law_function_section_faults(body, done.m.types.len());
    fault_laws::law_export_section_faults(body);
    fault_laws::law_start_section_faults(body);
    if 1 <= s.id <= done.last {
        let i = choose|i: int| 0 <= i < sections.len() && (#[trigger] sections[i]).id == done.last;
        assert(sections[i].id >= s.id);
    }
}

} // verus!
