//! What holds of parsing as a whole.

use crate::fault::Fault;
use crate::grammar;
use crate::grammar::{Parsed, Progress, Section};
use crate::leb;
use crate::module;
use crate::module::ModuleModel;
use crate::parse::{ParseErrorKind, MAGIC, MAX_KNOWN_SECTION_ID, VERSION};
use crate::types::{ExportModel, Func, FuncTypeModel, ImportModel};
use vstd::prelude::*;

verus! {

/// A header is accepted exactly if the first eight bytes are the magic number
/// and the version, and whatever follows them does not matter.
pub proof fn law_header_is_the_first_eight_bytes(bytes: Seq<u8>)
    ensures
        grammar::header(bytes) is Ok <==> bytes.len() >= 8 && bytes.take(8) == MAGIC@ + VERSION@,
        grammar::header(bytes) matches Ok(start) ==> start == 8,
{
    let expected = MAGIC@ + VERSION@;
    if grammar::header(bytes) is Ok {
        assert forall|i: int| 0 <= i < 8 implies bytes.take(8)[i] == expected[i] by {
            if i < 4 {
                assert(MAGIC@[i] == bytes[0 + i]);
            } else {
                assert(VERSION@[i - 4] == bytes[4 + (i - 4)]);
            }
        }
        assert(bytes.take(8) =~= expected);
    }
    if bytes.len() >= 8 && bytes.take(8) == expected {
        assert forall|i: int| 0 <= i < 4 implies #[trigger] MAGIC@[i] == bytes[0 + i] by {
            assert(bytes.take(8)[i] == expected[i]);
        }
        assert forall|i: int| 0 <= i < 4 implies #[trigger] VERSION@[i] == bytes[4 + i] by {
            assert(bytes.take(8)[4 + i] == expected[4 + i]);
        }
    }
}

/// A header that breaks off is reported at the exact missing byte.
pub proof fn law_truncated_header(bytes: Seq<u8>)
    requires
        bytes.len() < 8,
        bytes == (MAGIC@ + VERSION@).take(bytes.len() as int),
    ensures
        grammar::header(bytes) == Err::<int, Fault<ParseErrorKind>>(
            Fault { offset: bytes.len() as int, kind: ParseErrorKind::UnexpectedEof },
        ),
{
    let expected = MAGIC@ + VERSION@;
    assert forall|i: int| 0 <= i < 4 && 0 + i < bytes.len() implies #[trigger] MAGIC@[i]
        == bytes[0 + i] by {
        assert(expected.take(bytes.len() as int)[i] == expected[i]);
    }
    assert forall|i: int| 0 <= i < 4 && 4 + i < bytes.len() implies #[trigger] VERSION@[i]
        == bytes[4 + i] by {
        assert(expected.take(bytes.len() as int)[4 + i] == expected[4 + i]);
    }
}

/// Whether what was decoded at `pos` ends within the first `len` bytes, and a
/// fault lies there too.
spec fn within<T>(parsed: Parsed<T>, pos: int, len: nat) -> bool {
    match parsed {
        Ok((_, next)) => pos <= next <= len,
        Err(fault) => pos <= fault.offset <= len,
    }
}

proof fn lemma_items_within<T>(item: spec_fn(int) -> Parsed<T>, pos: int, n: nat, len: nat)
    requires
        0 <= pos <= len,
        forall|p: int| 0 <= p <= len ==> within(#[trigger] item(p), p, len),
    ensures
        within(grammar::items(item, pos, n), pos, len),
    decreases n,
{
    if n > 0 {
        lemma_items_within(item, pos, (n - 1) as nat, len);
    }
}

proof fn lemma_u32_within(body: Seq<u8>, pos: int)
    requires
        0 <= pos <= body.len(),
    ensures
        within(grammar::u32_at(body, pos), pos, body.len()),
{
    leb::law_unsigned_fits(body, pos, 32);
}

proof fn lemma_vec_within<T>(body: Seq<u8>, item: spec_fn(int) -> Parsed<T>, pos: int)
    requires
        0 <= pos <= body.len(),
        forall|p: int| 0 <= p <= body.len() ==> within(#[trigger] item(p), p, body.len()),
    ensures
        within(grammar::vec_at(body, item, pos), pos, body.len()),
{
    lemma_u32_within(body, pos);
    if let Ok((n, p)) = grammar::u32_at(body, pos) {
        lemma_items_within(item, p, n as nat, body.len());
    }
}

proof fn lemma_limits_within(body: Seq<u8>, pos: int)
    requires
        0 <= pos <= body.len(),
    ensures
        within(grammar::limits_at(body, pos), pos, body.len()),
{
    if let Ok((_, p)) = grammar::byte_at(body, pos) {
        lemma_u32_within(body, p);
        if let Ok((_, q)) = grammar::u32_at(body, p) {
            lemma_u32_within(body, q);
        }
    }
}

proof fn lemma_func_type_within(body: Seq<u8>, pos: int)
    requires
        0 <= pos <= body.len(),
    ensures
        within(grammar::func_type_at(body, pos), pos, body.len()),
{
    let item = grammar::val_types(body);
    if let Ok((_, p)) = grammar::byte_at(body, pos) {
        lemma_vec_within(body, item, p);
        if let Ok((_, q)) = grammar::vec_at(body, item, p) {
            lemma_vec_within(body, item, q);
        }
    }
}

proof fn lemma_name_within(body: Seq<u8>, pos: int)
    requires
        0 <= pos <= body.len(),
    ensures
        within(grammar::name_at(body, pos), pos, body.len()),
{
    lemma_u32_within(body, pos);
}

proof fn lemma_import_desc_within(body: Seq<u8>, type_count: nat, pos: int)
    requires
        0 <= pos <= body.len(),
    ensures
        within(grammar::import_desc_at(body, type_count, pos), pos, body.len()),
{
    if let Ok((_, p)) = grammar::byte_at(body, pos) {
        lemma_u32_within(body, p);
        lemma_limits_within(body, p);
        if p < body.len() {
            lemma_limits_within(body, p + 1);
        }
    }
}

proof fn lemma_import_within(body: Seq<u8>, type_count: nat, pos: int)
    requires
        0 <= pos <= body.len(),
    ensures
        within(grammar::import_at(body, type_count, pos), pos, body.len()),
{
    lemma_name_within(body, pos);
    if let Ok((_, p)) = grammar::name_at(body, pos) {
        lemma_name_within(body, p);
        if let Ok((_, q)) = grammar::name_at(body, p) {
            lemma_import_desc_within(body, type_count, q);
        }
    }
}

proof fn lemma_export_within(body: Seq<u8>, pos: int)
    requires
        0 <= pos <= body.len(),
    ensures
        within(grammar::export_at(body, pos), pos, body.len()),
{
    lemma_name_within(body, pos);
    if let Ok((_, p)) = grammar::name_at(body, pos) {
        if let Ok((_, q)) = grammar::byte_at(body, p) {
            lemma_u32_within(body, q);
        }
    }
}

proof fn lemma_content_within(m: ModuleModel, id: u8, body: Seq<u8>)
    ensures
        grammar::with_content(m, id, body) matches Err(fault) ==> 0 <= fault.offset
            <= body.len(),
{
    let count = m.types.len();
    assert forall|p: int| 0 <= p <= body.len() implies within(
        #[trigger] grammar::func_types(body)(p),
        p,
        body.len(),
    ) by {
        lemma_func_type_within(body, p);
    }
    assert forall|p: int| 0 <= p <= body.len() implies within(
        #[trigger] grammar::imports(body, count)(p),
        p,
        body.len(),
    ) by {
        lemma_import_within(body, count, p);
    }
    assert forall|p: int| 0 <= p <= body.len() implies within(
        #[trigger] grammar::funcs(body, count)(p),
        p,
        body.len(),
    ) by {
        lemma_u32_within(body, p);
    }
    assert forall|p: int| 0 <= p <= body.len() implies within(
        #[trigger] grammar::exports(body)(p),
        p,
        body.len(),
    ) by {
        lemma_export_within(body, p);
    }
    lemma_vec_within(body, grammar::func_types(body), 0);
    lemma_vec_within(body, grammar::imports(body, count), 0);
    lemma_vec_within(body, grammar::funcs(body, count), 0);
    lemma_vec_within(body, grammar::exports(body), 0);
    lemma_u32_within(body, 0);
}

proof fn lemma_sections_within(bytes: Seq<u8>, pos: int, done: Progress)
    requires
        0 <= pos <= bytes.len(),
    ensures
        grammar::sections_from(bytes, pos, done) matches Err(fault) ==> pos <= fault.offset
            <= bytes.len(),
    decreases bytes.len() - pos,
{
    if pos < bytes.len() {
        grammar::lemma_section_bounds(bytes, pos);
        if let Ok(section) = grammar::section_at(bytes, pos) {
            let body = bytes.subrange(section.start, section.end);
            lemma_name_within(body, 0);
            lemma_content_within(done.m, section.id, body);
            if let Ok(more) = grammar::advance(done, bytes, pos, section) {
                lemma_sections_within(bytes, section.end, more);
            }
        }
    }
}

/// The offset of an error always lies within the input or at its end.
pub proof fn law_error_offset_in_input(bytes: Seq<u8>)
    ensures
        grammar::module(bytes) matches Err(fault) ==> 0 <= fault.offset <= bytes.len(),
{
    if grammar::header(bytes) is Ok {
        lemma_sections_within(bytes, 8, Progress::none());
    }
}

proof fn lemma_items_each<T>(
    item: spec_fn(int) -> Parsed<T>,
    pos: int,
    n: nat,
    holds: spec_fn(T) -> bool,
)
    requires
        forall|p: int| (#[trigger] item(p)) matches Ok((x, _)) ==> holds(x),
    ensures
        grammar::items(item, pos, n) matches Ok((xs, _)) ==> forall|i: int|
            0 <= i < xs.len() ==> holds(#[trigger] xs[i]),
    decreases n,
{
    if n > 0 {
        lemma_items_each(item, pos, (n - 1) as nat, holds);
        if let Ok((before, p)) = grammar::items(item, pos, (n - 1) as nat) {
            let _ = item(p);
        }
    }
}

/// What holds of everything decoded so far: type indices are in range, and
/// sections that have not been reached are empty.
spec fn sound(done: Progress) -> bool {
    &&& done.m.well_formed()
    &&& done.last < 2 ==> done.m.imports.len() == 0
    &&& done.last < 3 ==> done.m.funcs.len() == 0
}

proof fn lemma_advance_sound(done: Progress, bytes: Seq<u8>, pos: int, section: Section)
    requires
        sound(done),
    ensures
        grammar::advance(done, bytes, pos, section) matches Ok(more) ==> sound(more),
{
    let body = bytes.subrange(section.start, section.end);
    let count = done.m.types.len();
    let import_ok = |i: ImportModel| module::func_import(i) matches Some(t) ==> t < count;
    let func_ok = |f: Func| f.type_idx < count;
    if let Ok((n, p)) = grammar::u32_at(body, 0) {
        assert forall|q: int| (#[trigger] grammar::imports(body, count)(q)) matches Ok((
            x,
            _,
        )) ==> import_ok(x) by {}
        lemma_items_each(grammar::imports(body, count), p, n as nat, import_ok);
        lemma_items_each(grammar::funcs(body, count), p, n as nat, func_ok);
    }
    if let Ok(more) = grammar::advance(done, bytes, pos, section) {
        if section.id == 2 {
            assert forall|i: int| 0 <= i < more.m.imports.len() implies (module::func_import(
                #[trigger] more.m.imports[i],
            ) matches Some(type_idx) ==> type_idx < more.m.types.len()) by {
                assert(import_ok(more.m.imports[i]));
            }
        } else if section.id == 3 {
            assert forall|i: int| 0 <= i < more.m.funcs.len() implies (
            #[trigger] more.m.funcs[i]).type_idx < more.m.types.len() by {
                assert(func_ok(more.m.funcs[i]));
            }
        }
    }
}

proof fn lemma_sections_sound(bytes: Seq<u8>, pos: int, done: Progress)
    requires
        0 <= pos <= bytes.len(),
        sound(done),
    ensures
        grammar::sections_from(bytes, pos, done) matches Ok(all) ==> sound(all),
    decreases bytes.len() - pos,
{
    if pos < bytes.len() {
        grammar::lemma_section_bounds(bytes, pos);
        if let Ok(section) = grammar::section_at(bytes, pos) {
            lemma_advance_sound(done, bytes, pos, section);
            if let Ok(more) = grammar::advance(done, bytes, pos, section) {
                lemma_sections_sound(bytes, section.end, more);
            }
        }
    }
}

/// Every type index in a parsed module names one of its types.
pub proof fn law_parsed_type_indices_in_range(bytes: Seq<u8>)
    ensures
        grammar::module(bytes) matches Ok(m) ==> m.well_formed(),
{
    law_header_is_the_first_eight_bytes(bytes);
    if grammar::header(bytes) is Ok {
        lemma_sections_sound(bytes, 8, Progress::none());
    }
}

/// In a parsed module exactly the indices below the number of functions,
/// imported and local together, have a signature.
pub proof fn law_every_parsed_function_has_a_type(bytes: Seq<u8>, index: int)
    requires
        0 <= index,
    ensures
        grammar::module(bytes) matches Ok(m) ==> (m.func_type(index) is Some <==> index
            < m.func_imports().len() + m.funcs.len()),
{
    law_parsed_type_indices_in_range(bytes);
    if let Ok(m) = grammar::module(bytes) {
        if index < m.func_imports().len() + m.funcs.len() {
            module::law_imported_functions_come_first(m, index);
        }
    }
}

proof fn lemma_items_carry_over<T>(
    item: spec_fn(int) -> Parsed<T>,
    other: spec_fn(int) -> Parsed<T>,
    pos: int,
    n: nat,
)
    requires
        forall|p: int| (#[trigger] item(p)) is Ok ==> other(p) == item(p),
    ensures
        grammar::items(item, pos, n) is Ok ==> grammar::items(other, pos, n) == grammar::items(
            item,
            pos,
            n,
        ),
    decreases n,
{
    if n > 0 {
        lemma_items_carry_over(item, other, pos, (n - 1) as nat);
    }
}

/// An import section that decodes with some types decodes alike with more of
/// them: imports only need the types they name.
pub proof fn law_more_types_keep_imports(body: Seq<u8>, fewer: nat, more: nat)
    requires
        fewer <= more,
    ensures
        grammar::import_section(body, fewer) matches Ok(imports) ==> grammar::import_section(
            body,
            more,
        ) == Ok::<Seq<ImportModel>, Fault<ParseErrorKind>>(imports),
{
    if let Ok((n, p)) = grammar::u32_at(body, 0) {
        lemma_items_carry_over(
            grammar::imports(body, fewer),
            grammar::imports(body, more),
            p,
            n as nat,
        );
    }
}

/// A function section that decodes with some types decodes alike with more of
/// them: functions only need the types they name.
pub proof fn law_more_types_keep_functions(body: Seq<u8>, fewer: nat, more: nat)
    requires
        fewer <= more,
    ensures
        grammar::function_section(body, fewer) matches Ok(funcs) ==> grammar::function_section(
            body,
            more,
        ) == Ok::<Seq<Func>, Fault<ParseErrorKind>>(funcs),
{
    if let Ok((n, p)) = grammar::u32_at(body, 0) {
        lemma_items_carry_over(
            grammar::funcs(body, fewer),
            grammar::funcs(body, more),
            p,
            n as nat,
        );
    }
}

/// A number that was read never depended on what follows it.
proof fn lemma_u32_looks_no_further(a: Seq<u8>, b: Seq<u8>, pos: int)
    requires
        0 <= pos,
        grammar::u32_at(a, pos) matches Ok((_, next)) && next <= b.len() && a.take(next)
            == b.take(next),
    ensures
        grammar::u32_at(b, pos) == grammar::u32_at(a, pos),
{
    leb::law_unsigned_looks_no_further(a, b, pos, 32);
}

/// A name that was read never depended on what follows it.
proof fn lemma_name_looks_no_further(a: Seq<u8>, b: Seq<u8>, pos: int)
    requires
        0 <= pos <= a.len(),
        grammar::name_at(a, pos) matches Ok((_, next)) && next <= b.len() && a.take(next)
            == b.take(next),
    ensures
        grammar::name_at(b, pos) == grammar::name_at(a, pos),
{
    lemma_u32_within(a, pos);
    let next = grammar::name_at(a, pos)->Ok_0.1;
    let (len, start) = grammar::u32_at(a, pos)->Ok_0;
    assert(a.take(next).take(start) =~= a.take(start));
    assert(b.take(next).take(start) =~= b.take(start));
    lemma_u32_looks_no_further(a, b, pos);
    assert(a.take(next).subrange(start, next) =~= a.subrange(start, next));
    assert(b.take(next).subrange(start, next) =~= b.subrange(start, next));
}

/// A section that lies within one binary lies there in any other that agrees
/// with it up to the end of the section's size.
pub proof fn lemma_section_looks_no_further(a: Seq<u8>, b: Seq<u8>, pos: int)
    requires
        0 <= pos < a.len(),
        grammar::section_at(a, pos) matches Ok(s) && s.end <= b.len() && a.take(s.start)
            == b.take(s.start),
    ensures
        grammar::section_at(b, pos) == grammar::section_at(a, pos),
{
    grammar::lemma_section_bounds(a, pos);
    let s = grammar::section_at(a, pos)->Ok_0;
    lemma_u32_looks_no_further(a, b, pos + 1);
    assert(a.take(s.start)[pos] == b.take(s.start)[pos]);
}

/// The same section, `by` bytes further on.
spec fn moved(section: Section, by: int) -> Section {
    Section { id: section.id, start: section.start + by, end: section.end + by }
}

/// A section depends on the bytes from its id on alone.
proof fn lemma_section_local(a: Seq<u8>, i: int, b: Seq<u8>, j: int)
    requires
        0 <= i < a.len(),
        0 <= j < b.len(),
        a.skip(i) == b.skip(j),
    ensures
        grammar::section_at(b, j) == match grammar::section_at(a, i) {
            Ok(section) => Ok::<Section, Fault<ParseErrorKind>>(moved(section, j - i)),
            Err(fault) => Err(fault.shifted(j - i)),
        },
{
    assert(a.skip(i).len() == a.len() - i && b.skip(j).len() == b.len() - j);
    assert(a.skip(i)[0] == a[i] && b.skip(j)[0] == b[j]);
    assert(a.skip(i).skip(1) =~= a.skip(i + 1));
    assert(b.skip(j).skip(1) =~= b.skip(j + 1));
    leb::law_unsigned_is_local(a, i + 1, b, j + 1, 32);
}

/// What a section adds depends on its content alone; where it lies only
/// decides where its faults are placed.
proof fn lemma_advance_local(
    done: Progress,
    a: Seq<u8>,
    i: int,
    s: Section,
    b: Seq<u8>,
    j: int,
    t: Section,
)
    requires
        t == moved(s, j - i),
        a.subrange(s.start, s.end) == b.subrange(t.start, t.end),
    ensures
        grammar::advance(done, b, j, t) == grammar::placed(
            grammar::advance(done, a, i, s),
            j - i,
        ),
{
}

/// What the sections from a position on come to depends on the bytes from
/// there on alone.
#[verifier::rlimit(30)]
pub proof fn lemma_sections_local(a: Seq<u8>, i: int, b: Seq<u8>, j: int, done: Progress)
    requires
        0 <= i <= a.len(),
        0 <= j <= b.len(),
        a.skip(i) == b.skip(j),
    ensures
        grammar::sections_from(b, j, done) == grammar::placed(
            grammar::sections_from(a, i, done),
            j - i,
        ),
    decreases a.len() - i,
{
    assert(a.skip(i).len() == a.len() - i && b.skip(j).len() == b.len() - j);
    if i < a.len() {
        lemma_section_local(a, i, b, j);
        grammar::lemma_section_bounds(a, i);
        if let Ok(s) = grammar::section_at(a, i) {
            let t = moved(s, j - i);
            assert(a.skip(i).subrange(s.start - i, s.end - i) =~= a.subrange(s.start, s.end));
            assert(b.skip(j).subrange(s.start - i, s.end - i) =~= b.subrange(t.start, t.end));
            lemma_advance_local(done, a, i, s, b, j, t);
            if let Ok(more) = grammar::advance(done, a, i, s) {
                assert(a.skip(i).skip(s.end - i) =~= a.skip(s.end));
                assert(b.skip(j).skip(s.end - i) =~= b.skip(t.end));
                lemma_sections_local(a, s.end, b, t.end, more);
            }
        }
    }
}

/// Sections that end where `first` ends are taken in before whatever follows.
proof fn lemma_sections_then(first: Seq<u8>, second: Seq<u8>, pos: int, done: Progress)
    requires
        0 <= pos <= first.len(),
        grammar::sections_from(first, pos, done) is Ok,
    ensures
        grammar::sections_from(first + second, pos, done) == grammar::sections_from(
            first + second,
            first.len() as int,
            grammar::sections_from(first, pos, done)->Ok_0,
        ),
    decreases first.len() - pos,
{
    let both = first + second;
    if pos < first.len() {
        grammar::lemma_section_bounds(first, pos);
        let s = grammar::section_at(first, pos)->Ok_0;
        assert(first.take(s.start) =~= both.take(s.start));
        lemma_section_looks_no_further(first, both, pos);
        assert(first.subrange(s.start, s.end) =~= both.subrange(s.start, s.end));
        let more = grammar::advance(done, first, pos, s)->Ok_0;
        lemma_sections_then(first, second, s.end, more);
    }
}

/// What sections come to after a binary that parses: they are taken in where
/// that binary left off, and faults in them are placed behind it.
pub proof fn lemma_parse_then(first: Seq<u8>, second: Seq<u8>)
    requires
        grammar::module(first) is Ok,
    ensures
        grammar::sections_from(first, 8, Progress::none()) is Ok,
        ({
            let done = grammar::sections_from(first, 8, Progress::none())->Ok_0;
            let rest = grammar::sections_from(second, 0, done);
            &&& done.m == grammar::module(first)->Ok_0
            &&& grammar::module(first + second) == match rest {
                Ok(all) => Ok::<ModuleModel, Fault<ParseErrorKind>>(all.m),
                Err(fault) => Err(fault.shifted(first.len() as int)),
            }
        }),
{
    let both = first + second;
    law_header_is_the_first_eight_bytes(first);
    law_header_is_the_first_eight_bytes(both);
    assert(both.take(8) =~= first.take(8));
    let done = grammar::sections_from(first, 8, Progress::none())->Ok_0;
    lemma_sections_then(first, second, 8, Progress::none());
    assert(both.skip(first.len() as int) =~= second.skip(0));
    lemma_sections_local(second, 0, both, first.len() as int, done);
}

/// What one section and whatever follows it come to, seen from what the
/// section alone comes to.
pub proof fn lemma_section_then_rest(section: Seq<u8>, after: Seq<u8>, done: Progress)
    requires
        section.len() > 0,
        grammar::section_at(section, 0) matches Ok(s) && s.end == section.len(),
    ensures
        grammar::sections_from(section + after, 0, done) == match grammar::sections_from(
            section,
            0,
            done,
        ) {
            Ok(more) => grammar::placed(
                grammar::sections_from(after, 0, more),
                section.len() as int,
            ),
            Err(fault) => Err(fault),
        },
{
    let both = section + after;
    let s = grammar::section_at(section, 0)->Ok_0;
    grammar::lemma_section_bounds(section, 0);
    if let Ok(more) = grammar::sections_from(section, 0, done) {
        lemma_sections_then(section, after, 0, done);
        assert(both.skip(section.len() as int) =~= after.skip(0));
        lemma_sections_local(after, 0, both, section.len() as int, more);
    } else {
        assert(section.take(s.start) =~= both.take(s.start));
        lemma_section_looks_no_further(section, both, 0);
        assert(section.subrange(s.start, s.end) =~= both.subrange(s.start, s.end));
        if let Ok(more) = grammar::advance(done, section, 0, s) {
            assert(grammar::sections_from(section, s.end, more) is Ok);
        }
    }
}

/// `names` put in front of the names of the custom sections seen so far.
spec fn preceded(names: Seq<Seq<char>>, done: Progress) -> Progress {
    Progress {
        m: ModuleModel { custom_sections: names + done.m.custom_sections, ..done.m },
        last: done.last,
    }
}

/// Custom sections that came earlier have no part in what comes later.
proof fn lemma_earlier_names_stay(
    names: Seq<Seq<char>>,
    bytes: Seq<u8>,
    pos: int,
    done: Progress,
)
    requires
        0 <= pos <= bytes.len(),
    ensures
        grammar::sections_from(bytes, pos, preceded(names, done)) == match grammar::sections_from(
            bytes,
            pos,
            done,
        ) {
            Ok(all) => Ok::<Progress, Fault<ParseErrorKind>>(preceded(names, all)),
            Err(fault) => Err(fault),
        },
    decreases bytes.len() - pos,
{
    if pos < bytes.len() {
        grammar::lemma_section_bounds(bytes, pos);
        if let Ok(s) = grammar::section_at(bytes, pos) {
            if let Ok(more) = grammar::advance(done, bytes, pos, s) {
                if s.id == 0 {
                    let name = grammar::name_at(
                        bytes.subrange(s.start, s.end),
                        0,
                    )->Ok_0.0;
                    assert((names + done.m.custom_sections).push(name) =~= names
                        + done.m.custom_sections.push(name));
                }
                assert(grammar::advance(preceded(names, done), bytes, pos, s) == Ok::<
                    Progress,
                    Fault<ParseErrorKind>,
                >(preceded(names, more)));
                lemma_earlier_names_stay(names, bytes, s.end, more);
            }
        }
    }
}

/// Whether `bytes` are exactly one custom section of that name.
pub open spec fn is_custom_section(bytes: Seq<u8>, name: Seq<char>) -> bool {
    &&& bytes.len() > 0
    &&& bytes[0] == 0
    &&& grammar::section_at(bytes, 0) matches Ok(s) && s.end == bytes.len() && (
    grammar::name_at(bytes.subrange(s.start, s.end), 0) matches Ok((n, _)) && n == name)
}

/// A custom section adds its name and nothing else.
pub proof fn lemma_custom_section_adds_its_name(custom: Seq<u8>, name: Seq<char>, done: Progress)
    requires
        is_custom_section(custom, name),
    ensures
        grammar::sections_from(custom, 0, done) == Ok::<Progress, Fault<ParseErrorKind>>(
            Progress {
                m: ModuleModel {
                    custom_sections: done.m.custom_sections.push(name),
                    ..done.m
                },
                last: done.last,
            },
        ),
{
    let s = grammar::section_at(custom, 0)->Ok_0;
    let more = grammar::advance(done, custom, 0, s)->Ok_0;
    assert(grammar::sections_from(custom, s.end, more) is Ok);
}

/// A name put after the first `earlier` names of custom sections.
spec fn with_name(done: Progress, earlier: int, name: Seq<char>) -> Progress {
    Progress {
        m: ModuleModel {
            custom_sections: done.m.custom_sections.insert(earlier, name),
            ..done.m
        },
        last: done.last,
    }
}

/// A custom section in front of other sections only adds its name in front of
/// theirs.
proof fn lemma_custom_section_then(
    custom: Seq<u8>,
    after: Seq<u8>,
    name: Seq<char>,
    done: Progress,
)
    requires
        is_custom_section(custom, name),
    ensures
        grammar::sections_from(custom + after, 0, done) == match grammar::sections_from(
            after,
            0,
            done,
        ) {
            Ok(all) => Ok::<Progress, Fault<ParseErrorKind>>(
                with_name(all, done.m.custom_sections.len() as int, name),
            ),
            Err(fault) => Err(fault.shifted(custom.len() as int)),
        },
{
    let names = done.m.custom_sections;
    let fresh = Progress {
        m: ModuleModel { custom_sections: Seq::empty(), ..done.m },
        last: done.last,
    };
    let more = Progress {
        m: ModuleModel { custom_sections: names.push(name), ..done.m },
        last: done.last,
    };
    assert(preceded(names, fresh) =~= done);
    assert(preceded(names.push(name), fresh) =~= more);
    lemma_earlier_names_stay(names, after, 0, fresh);
    lemma_earlier_names_stay(names.push(name), after, 0, fresh);
    lemma_custom_section_adds_its_name(custom, name, done);
    lemma_section_then_rest(custom, after, done);
    if let Ok(all) = grammar::sections_from(after, 0, fresh) {
        assert((names + all.m.custom_sections).insert(names.len() as int, name) =~= names.push(
            name,
        ) + all.m.custom_sections);
    }
}

/// Custom sections are exempt from the ordering rule: one more of them,
/// between any two sections, before the first or after the last, only adds
/// its name to the module, in its place among the names. Where the binary
/// does not parse, the same error comes, moved by the length of the section.
#[verifier::rlimit(30)]
pub proof fn law_custom_sections_may_appear_anywhere(
    before: Seq<u8>,
    custom: Seq<u8>,
    after: Seq<u8>,
    name: Seq<char>,
)
    requires
        grammar::module(before) is Ok,
        is_custom_section(custom, name),
    ensures
        ({
            let earlier = grammar::module(before)->Ok_0.custom_sections.len() as int;
            grammar::module(before + custom + after) == match grammar::module(before + after) {
                Ok(m) => Ok::<ModuleModel, Fault<ParseErrorKind>>(
                    ModuleModel {
                        custom_sections: m.custom_sections.insert(earlier, name),
                        ..m
                    },
                ),
                Err(fault) => Err(fault.shifted(custom.len() as int)),
            }
        }),
{
    lemma_parse_then(before, after);
    lemma_parse_then(before, custom + after);
    assert(before + custom + after =~= before + (custom + after));
    let done = grammar::sections_from(before, 8, Progress::none())->Ok_0;
    lemma_custom_section_then(custom, after, name, done);
}

/// Whether sections of this id are skipped by length.
pub open spec fn is_skipped(id: u8) -> bool {
    1 <= id <= MAX_KNOWN_SECTION_ID && id != 1 && id != 2 && id != 3 && id != 7 && id != 8
}

/// Whether `head` and `rest` are exactly one section of whose content nothing
/// in `rest` is looked at: a skipped section, or a custom section whose name
/// ends within `head`.
pub open spec fn is_not_interpreted(head: Seq<u8>, rest: Seq<u8>) -> bool {
    let both = head + rest;
    &&& both.len() > 0
    &&& grammar::section_at(both, 0) matches Ok(s) && {
        &&& s.start <= head.len()
        &&& s.end == both.len()
        &&& {
            ||| is_skipped(s.id)
            ||| s.id == 0 && (grammar::name_at(both.subrange(s.start, s.end), 0) matches Ok((
                _,
                next,
            )) && s.start + next <= head.len())
        }
    }
}

proof fn lemma_content_not_interpreted(
    head: Seq<u8>,
    rest: Seq<u8>,
    other: Seq<u8>,
    done: Progress,
)
    requires
        is_not_interpreted(head, rest),
        other.len() == rest.len(),
    ensures
        grammar::section_at(head + other, 0) == grammar::section_at(head + rest, 0),
        grammar::sections_from(head + other, 0, done) == grammar::sections_from(
            head + rest,
            0,
            done,
        ),
{
    let a = head + rest;
    let b = head + other;
    grammar::lemma_section_bounds(a, 0);
    let s = grammar::section_at(a, 0)->Ok_0;
    assert(a.take(s.start) =~= b.take(s.start));
    lemma_section_looks_no_further(a, b, 0);
    if s.id == 0 {
        let x = a.subrange(s.start, s.end);
        let y = b.subrange(s.start, s.end);
        lemma_name_within(x, 0);
        let next = grammar::name_at(x, 0)->Ok_0.1;
        assert(x.take(next) =~= y.take(next));
        lemma_name_looks_no_further(x, y, 0);
    }
    assert(grammar::advance(done, b, 0, s) == grammar::advance(done, a, 0, s));
    if let Ok(more) = grammar::advance(done, a, 0, s) {
        assert(grammar::sections_from(a, s.end, more) == Ok::<Progress, Fault<ParseErrorKind>>(
            more,
        ));
        assert(grammar::sections_from(b, s.end, more) == Ok::<Progress, Fault<ParseErrorKind>>(
            more,
        ));
    }
}

/// The content of a skipped section, and what follows the name in a custom
/// section, is not interpreted: any other bytes of the same length give the
/// same module, or the same error.
#[verifier::rlimit(30)]
pub proof fn law_skipped_content_does_not_matter(
    before: Seq<u8>,
    head: Seq<u8>,
    rest: Seq<u8>,
    other: Seq<u8>,
    after: Seq<u8>,
)
    requires
        grammar::module(before) is Ok,
        is_not_interpreted(head, rest),
        other.len() == rest.len(),
    ensures
        grammar::module(before + (head + other) + after) == grammar::module(
            before + (head + rest) + after,
        ),
{
    let a = head + rest;
    let b = head + other;
    lemma_parse_then(before, a + after);
    lemma_parse_then(before, b + after);
    assert(before + a + after =~= before + (a + after));
    assert(before + b + after =~= before + (b + after));
    let done = grammar::sections_from(before, 8, Progress::none())->Ok_0;
    lemma_content_not_interpreted(head, rest, other, done);
    lemma_section_then_rest(a, after, done);
    lemma_section_then_rest(b, after, done);
}

/// The sections of a binary as they lie in it from `pos` on, whatever their
/// content; nothing if they do not fill it exactly.
pub open spec fn layout_from(bytes: Seq<u8>, pos: int) -> Option<Seq<Section>>
    decreases bytes.len() - pos,
{
    if !(0 <= pos < bytes.len()) {
        Some(Seq::empty())
    } else {
        proof {
            grammar::lemma_section_bounds(bytes, pos);
        }
        match grammar::section_at(bytes, pos) {
            Ok(section) => match layout_from(bytes, section.end) {
                Some(rest) => Some(seq![section] + rest),
                None => None,
            },
            Err(_) => None,
        }
    }
}

/// The names of the custom sections among `sections`, in order.
pub open spec fn custom_names(bytes: Seq<u8>, sections: Seq<Section>) -> Seq<Seq<char>>
    decreases sections.len(),
{
    if sections.len() == 0 {
        Seq::empty()
    } else {
        let s = sections[0];
        let rest = custom_names(bytes, sections.drop_first());
        if s.id == 0 {
            seq![grammar::name_at(bytes.subrange(s.start, s.end), 0)->Ok_0.0] + rest
        } else {
            rest
        }
    }
}

/// The ids of the skipped sections among `sections`, in order.
pub open spec fn skipped_ids(sections: Seq<Section>) -> Seq<u8>
    decreases sections.len(),
{
    if sections.len() == 0 {
        Seq::empty()
    } else {
        let rest = skipped_ids(sections.drop_first());
        if is_skipped(sections[0].id) {
            seq![sections[0].id] + rest
        } else {
            rest
        }
    }
}

/// Whether every section has an id that the format knows, and the known ids
/// other than that of custom sections strictly increase from one section to
/// the next, starting above `last`.
pub open spec fn in_order(sections: Seq<Section>, last: u8) -> bool {
    &&& forall|i: int|
        0 <= i < sections.len() ==> (#[trigger] sections[i]).id <= MAX_KNOWN_SECTION_ID && (
        sections[i].id == 0 || sections[i].id > last)
    &&& forall|i: int, j: int|
        0 <= i < j < sections.len() && (#[trigger] sections[i]).id != 0 && (
        #[trigger] sections[j]).id != 0 ==> sections[i].id < sections[j].id
}

/// What the layout of sections that decode has to do with what was decoded.
pub proof fn lemma_layout(bytes: Seq<u8>, pos: int, done: Progress)
    requires
        0 <= pos <= bytes.len(),
        done.last <= MAX_KNOWN_SECTION_ID,
    ensures
        grammar::sections_from(bytes, pos, done) matches Ok(all) ==> {
            &&& layout_from(bytes, pos) matches Some(sections) && {
                &&& in_order(sections, done.last)
                &&& done.last <= all.last
                &&& forall|i: int| 0 <= i < sections.len() ==> (#[trigger] sections[i]).id <= all.last
                &&& all.m.custom_sections == done.m.custom_sections + custom_names(bytes, sections)
                &&& all.m.skipped_sections == done.m.skipped_sections + skipped_ids(sections)
            }
        },
    decreases bytes.len() - pos,
{
    if grammar::sections_from(bytes, pos, done) is Ok {
        let all = grammar::sections_from(bytes, pos, done)->Ok_0;
        if pos < bytes.len() {
            grammar::lemma_section_bounds(bytes, pos);
            let s = grammar::section_at(bytes, pos)->Ok_0;
            let more = grammar::advance(done, bytes, pos, s)->Ok_0;
            lemma_layout(bytes, s.end, more);
            let rest = layout_from(bytes, s.end)->Some_0;
            let sections = seq![s] + rest;
            assert(sections.drop_first() =~= rest);
            assert forall|i: int| 0 <= i < sections.len() implies (#[trigger] sections[i]).id
                <= MAX_KNOWN_SECTION_ID && (sections[i].id == 0 || sections[i].id
                > done.last) by {
                if i > 0 {
                    assert(sections[i] == rest[i - 1]);
                }
            }
            assert forall|i: int| 0 <= i < sections.len() implies (#[trigger] sections[i]).id
                <= all.last by {
                if i > 0 {
                    assert(sections[i] == rest[i - 1]);
                }
            }
            assert forall|i: int, j: int|
                0 <= i < j < sections.len() && (#[trigger] sections[i]).id != 0 && (
                #[trigger] sections[j]).id != 0 implies sections[i].id < sections[j].id by {
                assert(sections[j] == rest[j - 1]);
                if i > 0 {
                    assert(sections[i] == rest[i - 1]);
                }
            }
            assert(all.m.custom_sections =~= done.m.custom_sections + custom_names(
                bytes,
                sections,
            ));
            assert(all.m.skipped_sections =~= done.m.skipped_sections + skipped_ids(sections));
        } else {
            assert(all.m.custom_sections =~= done.m.custom_sections + Seq::empty());
            assert(all.m.skipped_sections =~= done.m.skipped_sections + Seq::empty());
        }
    }
}

/// Whether one of the sections has that id.
pub open spec fn has_section(sections: Seq<Section>, id: u8) -> bool {
    exists|i: int| 0 <= i < sections.len() && (#[trigger] sections[i]).id == id
}

/// Whether a module has what a section holds. Sections that are not decoded
/// hold nothing that it could lack.
pub open spec fn holds_content(bytes: Seq<u8>, section: Section, m: ModuleModel) -> bool {
    let body = bytes.subrange(section.start, section.end);
    if section.id == 1 {
        grammar::type_section(body) == Ok::<Seq<FuncTypeModel>, Fault<ParseErrorKind>>(m.types)
    } else if section.id == 2 {
        grammar::import_section(body, m.types.len()) == Ok::<
            Seq<ImportModel>,
            Fault<ParseErrorKind>,
        >(m.imports)
    } else if section.id == 3 {
        grammar::function_section(body, m.types.len()) == Ok::<Seq<Func>, Fault<ParseErrorKind>>(
            m.funcs,
        )
    } else if section.id == 7 {
        grammar::export_section(body) == Ok::<Seq<ExportModel>, Fault<ParseErrorKind>>(m.exports)
    } else if section.id == 8 {
        grammar::start_section(body) matches Ok(index) && m.start == Some(index)
    } else {
        true
    }
}

/// Whether two modules agree in what the sections that are missing among
/// `sections` would have held.
pub open spec fn agree_where_missing(
    sections: Seq<Section>,
    m: ModuleModel,
    other: ModuleModel,
) -> bool {
    &&& !has_section(sections, 1) ==> m.types == other.types
    &&& !has_section(sections, 2) ==> m.imports == other.imports
    &&& !has_section(sections, 3) ==> m.funcs == other.funcs
    &&& !has_section(sections, 7) ==> m.exports == other.exports
    &&& !has_section(sections, 8) ==> m.start == other.start
}

/// One more section in front adds its id.
pub proof fn lemma_has_section(s: Section, rest: Seq<Section>)
    ensures
        forall|id: u8| #[trigger]
            has_section(seq![s] + rest, id) <==> s.id == id || has_section(rest, id),
{
    let sections = seq![s] + rest;
    assert forall|id: u8| #[trigger] has_section(sections, id) <==> s.id == id || has_section(
        rest,
        id,
    ) by {
        if s.id == id {
            assert(sections[0].id == id);
        }
        if has_section(rest, id) {
            let i = choose|i: int| 0 <= i < rest.len() && (#[trigger] rest[i]).id == id;
            assert(sections[i + 1].id == id);
        }
        if has_section(sections, id) && s.id != id {
            let i = choose|i: int| 0 <= i < sections.len() && (#[trigger] sections[i]).id == id;
            assert(rest[i - 1].id == id);
        }
    }
}

proof fn lemma_contents(bytes: Seq<u8>, pos: int, done: Progress)
    requires
        0 <= pos <= bytes.len(),
        done.last <= MAX_KNOWN_SECTION_ID,
    ensures
        grammar::sections_from(bytes, pos, done) matches Ok(all) ==> {
            &&& layout_from(bytes, pos) matches Some(sections) && {
                &&& forall|i: int|
                    0 <= i < sections.len() ==> holds_content(
                        bytes,
                        #[trigger] sections[i],
                        all.m,
                    )
                &&& agree_where_missing(sections, all.m, done.m)
            }
        },
    decreases bytes.len() - pos,
{
    if grammar::sections_from(bytes, pos, done) is Ok && pos < bytes.len() {
        let all = grammar::sections_from(bytes, pos, done)->Ok_0;
        grammar::lemma_section_bounds(bytes, pos);
        let s = grammar::section_at(bytes, pos)->Ok_0;
        let more = grammar::advance(done, bytes, pos, s)->Ok_0;
        lemma_contents(bytes, s.end, more);
        lemma_layout(bytes, s.end, more);
        let rest = layout_from(bytes, s.end)->Some_0;
        let sections = seq![s] + rest;
        lemma_has_section(s, rest);
        assert forall|id: u8| 1 <= id <= more.last implies !#[trigger] has_section(rest, id) by {}
        assert(has_section(sections, s.id));
        assert(holds_content(bytes, s, all.m)) by {
            assert(s.id != 0 ==> more.last == s.id);
            assert(s.id >= 1 ==> !has_section(rest, 1));
            assert(s.id >= 2 ==> !has_section(rest, 2));
            assert(s.id >= 3 ==> !has_section(rest, 3));
            assert(s.id >= 7 ==> !has_section(rest, 7));
            assert(s.id >= 8 ==> !has_section(rest, 8));
        }
        assert forall|i: int| 0 <= i < sections.len() implies holds_content(
            bytes,
            #[trigger] sections[i],
            all.m,
        ) by {
            if i > 0 {
                assert(sections[i] == rest[i - 1]);
            }
        }
        assert(agree_where_missing(sections, all.m, done.m)) by {
            assert(has_section(sections, 1) <==> s.id == 1 || has_section(rest, 1));
            assert(has_section(sections, 2) <==> s.id == 2 || has_section(rest, 2));
            assert(has_section(sections, 3) <==> s.id == 3 || has_section(rest, 3));
            assert(has_section(sections, 7) <==> s.id == 7 || has_section(rest, 7));
            assert(has_section(sections, 8) <==> s.id == 8 || has_section(rest, 8));
        }
    }
}

/// Whatever parses is a header followed by sections that fill the rest, in
/// the order the format requires. The module has the content of its type,
/// import, function, export and start sections, and nothing for those that
/// are missing; it has the name of every custom section and the id of every
/// skipped one, in the order they appeared.
pub proof fn law_sections_in_order(bytes: Seq<u8>)
    ensures
        grammar::module(bytes) matches Ok(m) ==> {
            &&& layout_from(bytes, 8) matches Some(sections) && {
                &&& in_order(sections, 0)
                &&& forall|i: int|
                    0 <= i < sections.len() ==> holds_content(bytes, #[trigger] sections[i], m)
                &&& agree_where_missing(sections, m, ModuleModel::empty())
                &&& m.custom_sections == custom_names(bytes, sections)
                &&& m.skipped_sections == skipped_ids(sections)
            }
        },
{
    law_header_is_the_first_eight_bytes(bytes);
    if let Ok(m) = grammar::module(bytes) {
        lemma_layout(bytes, 8, Progress::none());
        lemma_contents(bytes, 8, Progress::none());
        let sections = layout_from(bytes, 8)->Some_0;
        assert(m.custom_sections =~= custom_names(bytes, sections));
        assert(m.skipped_sections =~= skipped_ids(sections));
    }
}

/// Whether `bytes` are exactly one section of that id, whatever its content.
pub open spec fn is_section(bytes: Seq<u8>, id: u8) -> bool {
    &&& bytes.len() > 0
    &&& bytes[0] == id
    &&& grammar::section_at(bytes, 0) matches Ok(s) && s.end == bytes.len()
}

/// A known section after one of the same or a greater id is rejected, at its
/// first byte, whatever its content and whatever follows it. In particular no
/// known section may be repeated.
pub proof fn law_section_out_of_order_is_rejected(
    before: Seq<u8>,
    section: Seq<u8>,
    after: Seq<u8>,
    id: u8,
    i: int,
)
    requires
        grammar::module(before) is Ok,
        layout_from(before, 8) matches Some(sections) && 0 <= i < sections.len() && 1 <= id
            <= sections[i].id,
        is_section(section, id),
    ensures
        grammar::module(before + section + after) == Err::<ModuleModel, Fault<ParseErrorKind>>(
            Fault { offset: before.len() as int, kind: ParseErrorKind::SectionOutOfOrder },
        ),
{
    law_header_is_the_first_eight_bytes(before);
    lemma_layout(before, 8, Progress::none());
    lemma_parse_then(before, section + after);
    assert(before + section + after =~= before + (section + after));
    let done = grammar::sections_from(before, 8, Progress::none())->Ok_0;
    lemma_section_then_rest(section, after, done);
}

/// A section of an id that the format does not know is rejected, at its first
/// byte, wherever it appears and whatever follows it.
pub proof fn law_unknown_section_is_rejected(
    before: Seq<u8>,
    section: Seq<u8>,
    after: Seq<u8>,
    id: u8,
)
    requires
        grammar::module(before) is Ok,
        id > MAX_KNOWN_SECTION_ID,
        is_section(section, id),
    ensures
        grammar::module(before + section + after) == Err::<ModuleModel, Fault<ParseErrorKind>>(
            Fault { offset: before.len() as int, kind: ParseErrorKind::UnknownSectionId(id) },
        ),
{
    lemma_parse_then(before, section + after);
    assert(before + section + after =~= before + (section + after));
    let done = grammar::sections_from(before, 8, Progress::none())->Ok_0;
    lemma_section_then_rest(section, after, done);
}

} // verus!
