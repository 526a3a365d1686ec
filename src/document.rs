//! A whole mapping document: its lines grouped into class blocks, and the
//! index of classes read from it.

use vstd::prelude::*;
use crate::records::{
    add_member, header_model, line_of, new_class, parse_header, ClassView, Failure, MappingError,
    ProguardClass,
};
use crate::text::{chars_of, find_sep, has_sep, indented, is_indented};

verus! {

/// The lines of `s`, split at each `\n`; text without a `\n` is one line.
pub open spec fn split_lines(s: Seq<char>) -> Seq<Seq<char>>
    decreases s.len(),
{
    if s.len() == 0 {
        seq![Seq::empty()]
    } else {
        let prev = split_lines(s.drop_last());
        if s.last() == '\n' {
            prev.push(Seq::empty())
        } else {
            prev.update(prev.len() - 1, prev.last().push(s.last()))
        }
    }
}

/// The classes read so far, and the class whose block is still open.
pub struct Assembly {
    pub done: Seq<ClassView>,
    pub current: Option<ClassView>,
}

/// The classes read so far, the open one closed.
pub open spec fn flushed(st: Assembly) -> Seq<ClassView> {
    match st.current {
        Some(c) => st.done.push(c),
        None => st.done,
    }
}

/// A line that starts a class block.
pub open spec fn is_header_line(line: Seq<char>) -> bool {
    has_sep(line) && !is_indented(line)
}

/// One more line of the document: lines without ` -> ` are skipped, an
/// indented one belongs to the open class, any other starts a new class.
pub open spec fn step(st: Assembly, line: Seq<char>) -> Result<Assembly, Failure> {
    if !has_sep(line) {
        Ok(st)
    } else if is_indented(line) {
        match st.current {
            Some(c) => match add_member(c, line) {
                Ok(c2) => Ok(Assembly { done: st.done, current: Some(c2) }),
                Err(e) => Err(e),
            },
            None => Err(Failure::MalformedHeader(line)),
        }
    } else {
        match header_model(line) {
            Ok(h) => Ok(Assembly { done: flushed(st), current: Some(new_class(h)) }),
            Err(e) => Err(e),
        }
    }
}

/// The lines read one after another.
pub open spec fn assemble(lines: Seq<Seq<char>>) -> Result<Assembly, Failure>
    decreases lines.len(),
{
    if lines.len() == 0 {
        Ok(Assembly { done: Seq::empty(), current: None })
    } else {
        match assemble(lines.drop_last()) {
            Ok(st) => step(st, lines.last()),
            Err(e) => Err(e),
        }
    }
}

/// The classes of a document given as lines; the last block is closed at the
/// end of the input.
pub open spec fn document_model(lines: Seq<Seq<char>>) -> Result<Seq<ClassView>, Failure> {
    match assemble(lines) {
        Ok(st) => if st.current is Some {
            Ok(flushed(st))
        } else {
            Err(Failure::EmptyDocument)
        },
        Err(e) => Err(e),
    }
}

/// The classes of a document given as text.
pub open spec fn parse_model(text: Seq<char>) -> Result<Seq<ClassView>, Failure> {
    document_model(split_lines(text))
}

/// The characters of each line.
pub open spec fn char_lines(v: Seq<Vec<char>>) -> Seq<Seq<char>> {
    v.map_values(|l: Vec<char>| l@)
}

/// The model of each class.
pub open spec fn class_views(v: Seq<ProguardClass>) -> Seq<ClassView> {
    v.map_values(|c: ProguardClass| c@)
}

/// The model of the class still open, if any.
pub open spec fn open_view(c: Option<ProguardClass>) -> Option<ClassView> {
    match c {
        Some(c) => Some(c@),
        None => None,
    }
}

/// Once reading the first `n` lines fails, reading all of them fails the
/// same way.
pub proof fn lemma_assembly_failure_persists(lines: Seq<Seq<char>>, n: int)
    requires
        0 <= n <= lines.len(),
        assemble(lines.take(n)) is Err,
    ensures
        assemble(lines) == assemble(lines.take(n)),
    decreases lines.len(),
{
    if n == lines.len() {
        assert(lines.take(n) =~= lines);
    } else {
        assert(lines.drop_last().take(n) =~= lines.take(n));
        lemma_assembly_failure_persists(lines.drop_last(), n);
    }
}

/// Splits `text` into its lines.
pub fn lines_of_text(text: &Vec<char>) -> (r: Vec<Vec<char>>)
    ensures
        char_lines(r@) == split_lines(text@),
{
    let mut lines: Vec<Vec<char>> = Vec::new();
    let mut cur: Vec<char> = Vec::new();
    let mut i: usize = 0;
    assert(text@.take(0) =~= Seq::<char>::empty());
    assert(char_lines(lines@).push(cur@) =~= split_lines(text@.take(0)));
    while i < text.len()
        invariant
            i <= text@.len(),
            char_lines(lines@).push(cur@) == split_lines(text@.take(i as int)),
        decreases text@.len() - i,
    {
        let c = text[i];
        assert(text@.take(i + 1).drop_last() =~= text@.take(i as int));
        assert(text@.take(i + 1).last() == c);
        proof {
            lines@.lemma_push_map_commute(|l: Vec<char>| l@, cur);
        }
        if c == '\n' {
            lines.push(cur);
            cur = Vec::new();
            assert(char_lines(lines@).push(cur@) =~= split_lines(text@.take(i + 1)));
        } else {
            cur.push(c);
            assert(char_lines(lines@).push(cur@) =~= split_lines(text@.take(i + 1)));
        }
        i = i + 1;
    }
    assert(text@.take(i as int) =~= text@);
    proof {
        lines@.lemma_push_map_commute(|l: Vec<char>| l@, cur);
    }
    lines.push(cur);
    lines
}

/// The classes read from a mapping document, in the order of the document.
#[derive(Debug)]
pub struct MappingIndex {
    pub classes: Vec<ProguardClass>,
}

impl View for MappingIndex {
    type V = Seq<ClassView>;

    open spec fn view(&self) -> Seq<ClassView> {
        class_views(self.classes@)
    }
}

/// Reads the lines of a document into classes.
pub fn parse_lines(lines: &Vec<Vec<char>>) -> (r: Result<Vec<ProguardClass>, MappingError>)
    ensures
        match r {
            Ok(cs) => document_model(char_lines(lines@)) == Ok::<Seq<ClassView>, Failure>(class_views(cs@)),
            Err(e) => document_model(char_lines(lines@)) == Err::<Seq<ClassView>, Failure>(e@),
        },
{
    let ghost ls = char_lines(lines@);
    let mut done: Vec<ProguardClass> = Vec::new();
    let mut current: Option<ProguardClass> = None;
    let mut i: usize = 0;
    assert(ls.take(0) =~= Seq::<Seq<char>>::empty());
    assert(class_views(done@) =~= Seq::<ClassView>::empty());
    while i < lines.len()
        invariant
            i <= lines@.len(),
            ls == char_lines(lines@),
            ls.len() == lines@.len(),
            assemble(ls.take(i as int)) == Ok::<Assembly, Failure>(
                Assembly { done: class_views(done@), current: open_view(current) },
            ),
        decreases lines@.len() - i,
    {
        let line = &lines[i];
        assert(ls.take(i + 1).drop_last() =~= ls.take(i as int));
        assert(ls.take(i + 1).last() == line@);
        if find_sep(line).is_none() {
        } else if indented(line) {
            match current {
                Some(mut c) => {
                    match c.read_member(line) {
                        Ok(_) => {
                            current = Some(c);
                        },
                        Err(e) => {
                            proof {
                                lemma_assembly_failure_persists(ls, i + 1);
                            }
                            return Err(e);
                        },
                    }
                },
                None => {
                    proof {
                        lemma_assembly_failure_persists(ls, i + 1);
                    }
                    return Err(MappingError::MalformedHeader(line_of(line)));
                },
            }
        } else {
            match parse_header(line) {
                Ok((d, o)) => {
                    match current {
                        Some(c) => {
                            proof {
                                done@.lemma_push_map_commute(|c: ProguardClass| c@, c);
                            }
                            done.push(c);
                        },
                        None => {},
                    }
                    current = Some(ProguardClass::from_header(d, o));
                },
                Err(e) => {
                    proof {
                        lemma_assembly_failure_persists(ls, i + 1);
                    }
                    return Err(e);
                },
            }
        }
        i = i + 1;
    }
    assert(ls.take(i as int) =~= ls);
    match current {
        Some(c) => {
            proof {
                done@.lemma_push_map_commute(|c: ProguardClass| c@, c);
            }
            done.push(c);
            Ok(done)
        },
        None => Err(MappingError::EmptyDocument),
    }
}

impl MappingIndex {
    /// Reads a whole mapping document into a fresh index.
    pub fn parse(text: &str) -> (r: Result<MappingIndex, MappingError>)
        ensures
            match r {
                Ok(ix) => parse_model(text@) == Ok::<Seq<ClassView>, Failure>(ix@),
                Err(e) => parse_model(text@) == Err::<Seq<ClassView>, Failure>(e@),
            },
    {
        let chars = chars_of(text);
        let lines = lines_of_text(&chars);
        match parse_lines(&lines) {
            Ok(classes) => Ok(MappingIndex { classes }),
            Err(e) => Err(e),
        }
    }

    /// All classes, in the order of the document.
    pub fn all_classes(&self) -> (r: &Vec<ProguardClass>)
        ensures
            class_views(r@) == self@,
    {
        &self.classes
    }
}

} // verus!
