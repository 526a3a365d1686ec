//! Properties that hold of every document, stated over the models that the
//! parsing and lookup functions are verified against.

use vstd::prelude::*;
use crate::document::{
    assemble, flushed, is_header_line, parse_model, split_lines, Assembly,
};
use crate::records::{
    class_model, field_model, header_model, is_method_line, members_model, method_model, new_class,
    ClassView, Failure, NamePair,
};
use crate::search::class_named_like;
use crate::text::{has_sep, is_indented};

verus! {

/// How many lines start a class block.
pub open spec fn header_count(lines: Seq<Seq<char>>) -> nat
    decreases lines.len(),
{
    if lines.len() == 0 {
        0
    } else {
        header_count(lines.drop_last()) + if is_header_line(lines.last()) { 1nat } else { 0nat }
    }
}

proof fn lemma_assembly_counts_headers(lines: Seq<Seq<char>>)
    requires
        assemble(lines) is Ok,
    ensures
        flushed(assemble(lines)->Ok_0).len() == header_count(lines),
    decreases lines.len(),
{
    if lines.len() > 0 {
        lemma_assembly_counts_headers(lines.drop_last());
    }
}

/// A document read without error holds one class per class header line.
pub proof fn law_one_class_per_header(text: Seq<char>)
    requires
        parse_model(text) is Ok,
    ensures
        (parse_model(text)->Ok_0).len() == header_count(split_lines(text)),
{
    lemma_assembly_counts_headers(split_lines(text));
}

proof fn lemma_assembly_without_separators(lines: Seq<Seq<char>>)
    requires
        forall|i: int| 0 <= i < lines.len() ==> !has_sep(#[trigger] lines[i]),
    ensures
        assemble(lines) == Ok::<Assembly, Failure>(Assembly { done: Seq::empty(), current: None }),
    decreases lines.len(),
{
    if lines.len() > 0 {
        assert(!has_sep(lines[lines.len() - 1]));
        lemma_assembly_without_separators(lines.drop_last());
    }
}

/// A document in which no line holds ` -> ` has no class: reading it fails
/// with `EmptyDocument`.
pub proof fn law_no_separator_is_empty_document(text: Seq<char>)
    requires
        forall|i: int| 0 <= i < split_lines(text).len() ==> !has_sep(#[trigger] split_lines(text)[i]),
    ensures
        parse_model(text) == Err::<Seq<ClassView>, Failure>(Failure::EmptyDocument),
{
    lemma_assembly_without_separators(split_lines(text));
}

/// An empty needle matches no class.
pub proof fn law_empty_needle_finds_nothing(classes: Seq<ClassView>)
    ensures
        classes.filter(class_named_like(Seq::empty())).len() == 0,
{
    broadcast use vstd::seq_lib::group_filter_ensures;

    let found = classes.filter(class_named_like(Seq::empty()));
    if found.len() > 0 {
        assert(class_named_like(Seq::empty())(found[0]));
    }
}

/// Member lines that declare a method.
pub open spec fn method_lines() -> spec_fn(Seq<char>) -> bool {
    |l: Seq<char>| is_method_line(l)
}

/// Member lines that declare a field.
pub open spec fn field_lines() -> spec_fn(Seq<char>) -> bool {
    |l: Seq<char>| !is_method_line(l)
}

/// The names read from a field line.
pub open spec fn field_names() -> spec_fn(Seq<char>) -> NamePair {
    |l: Seq<char>| field_model(l)->Ok_0
}

/// The names read from a method line.
pub open spec fn method_names() -> spec_fn(Seq<char>) -> NamePair {
    |l: Seq<char>| method_model(l)->Ok_0
}

proof fn lemma_members_in_order(c: ClassView, lines: Seq<Seq<char>>)
    requires
        members_model(c, lines) is Ok,
    ensures
        (members_model(c, lines)->Ok_0).deobfuscated == c.deobfuscated,
        (members_model(c, lines)->Ok_0).obfuscated == c.obfuscated,
        (members_model(c, lines)->Ok_0).fields == c.fields + lines.filter(field_lines()).map_values(
            field_names(),
        ),
        (members_model(c, lines)->Ok_0).methods == c.methods + lines.filter(
            method_lines(),
        ).map_values(method_names()),
    decreases lines.len(),
{
    if lines.len() == 0 {
        assert(lines.filter(field_lines()) =~= Seq::<Seq<char>>::empty());
        assert(lines.filter(method_lines()) =~= Seq::<Seq<char>>::empty());
        assert(c.fields + Seq::<NamePair>::empty() =~= c.fields);
        assert(c.methods + Seq::<NamePair>::empty() =~= c.methods);
    } else {
        let prev = lines.drop_last();
        let last = lines.last();
        lemma_members_in_order(c, prev);
        assert(lines =~= prev.push(last));
        prev.lemma_filter_push(last, field_lines());
        prev.lemma_filter_push(last, method_lines());
        prev.filter(field_lines()).lemma_push_map_commute(field_names(), last);
        prev.filter(method_lines()).lemma_push_map_commute(method_names(), last);
        let c2 = members_model(c, prev)->Ok_0;
        let fs = prev.filter(field_lines()).map_values(field_names());
        let ms = prev.filter(method_lines()).map_values(method_names());
        if is_method_line(last) {
            assert(c.methods + ms.push(method_names()(last)) =~= (c.methods + ms).push(
                method_names()(last),
            ));
        } else {
            assert(c.fields + fs.push(field_names()(last)) =~= (c.fields + fs).push(
                field_names()(last),
            ));
        }
    }
}

/// In a class block read without error, the fields are the block's field
/// lines read in the order they stand, and the methods its method lines read
/// in the order they stand.
pub proof fn law_members_keep_order(block: Seq<Seq<char>>)
    requires
        class_model(block) is Ok,
    ensures
        (class_model(block)->Ok_0).fields == block.skip(1).filter(field_lines()).map_values(
            field_names(),
        ),
        (class_model(block)->Ok_0).methods == block.skip(1).filter(method_lines()).map_values(
            method_names(),
        ),
{
    let h = header_model(block[0])->Ok_0;
    let c = new_class(h);
    lemma_members_in_order(c, block.skip(1));
    assert(Seq::<NamePair>::empty() + block.skip(1).filter(field_lines()).map_values(field_names())
        =~= block.skip(1).filter(field_lines()).map_values(field_names()));
    assert(Seq::<NamePair>::empty() + block.skip(1).filter(method_lines()).map_values(
        method_names(),
    ) =~= block.skip(1).filter(method_lines()).map_values(method_names()));
}

/// The fields of the classes, class after class.
pub open spec fn all_fields(cs: Seq<ClassView>) -> Seq<NamePair>
    decreases cs.len(),
{
    if cs.len() == 0 {
        Seq::empty()
    } else {
        all_fields(cs.drop_last()) + cs.last().fields
    }
}

/// The methods of the classes, class after class.
pub open spec fn all_methods(cs: Seq<ClassView>) -> Seq<NamePair>
    decreases cs.len(),
{
    if cs.len() == 0 {
        Seq::empty()
    } else {
        all_methods(cs.drop_last()) + cs.last().methods
    }
}

/// Lines of a document that declare a field.
pub open spec fn document_field_lines() -> spec_fn(Seq<char>) -> bool {
    |l: Seq<char>| has_sep(l) && is_indented(l) && !is_method_line(l)
}

/// Lines of a document that declare a method.
pub open spec fn document_method_lines() -> spec_fn(Seq<char>) -> bool {
    |l: Seq<char>| has_sep(l) && is_indented(l) && is_method_line(l)
}

proof fn lemma_assembly_in_order(lines: Seq<Seq<char>>)
    requires
        assemble(lines) is Ok,
    ensures
        all_fields(flushed(assemble(lines)->Ok_0)) == lines.filter(document_field_lines()).map_values(
            field_names(),
        ),
        all_methods(flushed(assemble(lines)->Ok_0)) == lines.filter(
            document_method_lines(),
        ).map_values(method_names()),
    decreases lines.len(),
{
    if lines.len() == 0 {
        assert(lines.filter(document_field_lines()) =~= Seq::<Seq<char>>::empty());
        assert(lines.filter(document_method_lines()) =~= Seq::<Seq<char>>::empty());
        assert(all_fields(Seq::<ClassView>::empty()) =~= Seq::<NamePair>::empty());
    } else {
        let prev = lines.drop_last();
        let line = lines.last();
        lemma_assembly_in_order(prev);
        assert(lines =~= prev.push(line));
        prev.lemma_filter_push(line, document_field_lines());
        prev.lemma_filter_push(line, document_method_lines());
        prev.filter(document_field_lines()).lemma_push_map_commute(field_names(), line);
        prev.filter(document_method_lines()).lemma_push_map_commute(method_names(), line);
        let st = assemble(prev)->Ok_0;
        let st2 = assemble(lines)->Ok_0;
        if has_sep(line) {
            if is_indented(line) {
                let c = st.current->Some_0;
                let c2 = st2.current->Some_0;
                assert(st.done.push(c).drop_last() =~= st.done);
                assert(st.done.push(c2).drop_last() =~= st.done);
                if is_method_line(line) {
                    assert(all_methods(st.done) + c.methods.push(method_names()(line)) =~= (
                    all_methods(st.done) + c.methods).push(method_names()(line)));
                } else {
                    assert(all_fields(st.done) + c.fields.push(field_names()(line)) =~= (
                    all_fields(st.done) + c.fields).push(field_names()(line)));
                }
            } else {
                let h = header_model(line)->Ok_0;
                assert(flushed(st).push(new_class(h)).drop_last() =~= flushed(st));
                assert(all_fields(flushed(st)) + new_class(h).fields =~= all_fields(flushed(st)));
                assert(all_methods(flushed(st)) + new_class(h).methods =~= all_methods(
                    flushed(st),
                ));
            }
        }
    }
}

/// In a document read without error, the fields of all classes, class after
/// class, are the document's field lines read in the order they stand; the
/// same holds of the methods.
pub proof fn law_document_keeps_member_order(text: Seq<char>)
    requires
        parse_model(text) is Ok,
    ensures
        all_fields(parse_model(text)->Ok_0) == split_lines(text).filter(
            document_field_lines(),
        ).map_values(field_names()),
        all_methods(parse_model(text)->Ok_0) == split_lines(text).filter(
            document_method_lines(),
        ).map_values(method_names()),
{
    lemma_assembly_in_order(split_lines(text));
}

} // verus!
