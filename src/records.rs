//! Classes, fields and methods of a mapping document, and the parsers that
//! read each of them from a line.

use vstd::prelude::*;
use crate::text::{
    after_colon, after_last_colon, chars_of, find_sep, has_char, has_char_from, indented,
    is_indented, sep_at, split_at_sep, string_of,
};

verus! {

/// A readable name and the obfuscated name it was given.
pub struct NamePair {
    pub deobfuscated: Seq<char>,
    pub obfuscated: Seq<char>,
}

/// A class with its fields and methods, in the order of the document.
pub struct ClassView {
    pub deobfuscated: Seq<char>,
    pub obfuscated: Seq<char>,
    pub fields: Seq<NamePair>,
    pub methods: Seq<NamePair>,
}

/// Why a document (or a line of it) could not be read; each carries the line.
pub enum Failure {
    MalformedHeader(Seq<char>),
    MalformedIndent(Seq<char>),
    MalformedField(Seq<char>),
    MalformedMethod(Seq<char>),
    EmptyDocument,
}

/// Why a document could not be read. Each kind but the last carries the
/// offending line.
#[derive(Debug)]
pub enum MappingError {
    MalformedHeader(String),
    MalformedIndent(String),
    MalformedField(String),
    MalformedMethod(String),
    EmptyDocument,
}

impl View for MappingError {
    type V = Failure;

    open spec fn view(&self) -> Failure {
        match self {
            MappingError::MalformedHeader(l) => Failure::MalformedHeader(l@),
            MappingError::MalformedIndent(l) => Failure::MalformedIndent(l@),
            MappingError::MalformedField(l) => Failure::MalformedField(l@),
            MappingError::MalformedMethod(l) => Failure::MalformedMethod(l@),
            MappingError::EmptyDocument => Failure::EmptyDocument,
        }
    }
}

/// A method: its full readable signature and its obfuscated short name.
#[derive(Debug)]
pub struct ProguardMethod {
    pub deobfed: String,
    pub obfed: String,
}

/// A field: its declared type and name, and its obfuscated name.
#[derive(Debug)]
pub struct ProguardField {
    pub deobfed: String,
    pub obfed: String,
}

/// A class with the fields and methods declared under it.
#[derive(Debug)]
pub struct ProguardClass {
    pub deobfed: String,
    pub obfed: String,
    pub fields: Vec<ProguardField>,
    pub methods: Vec<ProguardMethod>,
}

impl View for ProguardMethod {
    type V = NamePair;

    open spec fn view(&self) -> NamePair {
        NamePair { deobfuscated: self.deobfed@, obfuscated: self.obfed@ }
    }
}

impl View for ProguardField {
    type V = NamePair;

    open spec fn view(&self) -> NamePair {
        NamePair { deobfuscated: self.deobfed@, obfuscated: self.obfed@ }
    }
}

/// The names of each field.
pub open spec fn field_views(v: Seq<ProguardField>) -> Seq<NamePair> {
    v.map_values(|f: ProguardField| f@)
}

/// The names of each method.
pub open spec fn method_views(v: Seq<ProguardMethod>) -> Seq<NamePair> {
    v.map_values(|m: ProguardMethod| m@)
}

impl View for ProguardClass {
    type V = ClassView;

    open spec fn view(&self) -> ClassView {
        ClassView {
            deobfuscated: self.deobfed@,
            obfuscated: self.obfed@,
            fields: field_views(self.fields@),
            methods: method_views(self.methods@),
        }
    }
}

/// Both names are present.
pub open spec fn pair_ok(p: NamePair) -> bool {
    p.deobfuscated.len() > 0 && p.obfuscated.len() > 0
}

/// The pair of names around the first separator of `s`, if both are present.
pub open spec fn names_around_sep(s: Seq<char>) -> Option<NamePair> {
    match split_at_sep(s) {
        Some((d, o)) => {
            let p = NamePair { deobfuscated: d, obfuscated: o };
            if pair_ok(p) { Some(p) } else { None }
        },
        None => None,
    }
}

/// `o` without one trailing `:`.
pub open spec fn strip_colon(o: Seq<char>) -> Seq<char> {
    if o.len() > 0 && o.last() == ':' { o.drop_last() } else { o }
}

/// A class header: the readable name before the first ` -> `, the obfuscated
/// name after it, without the trailing `:`. Neither name may be empty.
pub open spec fn header_model(s: Seq<char>) -> Result<NamePair, Failure> {
    match split_at_sep(s) {
        Some((d, o)) => {
            let p = NamePair { deobfuscated: d, obfuscated: strip_colon(o) };
            if pair_ok(p) { Ok(p) } else { Err(Failure::MalformedHeader(s)) }
        },
        None => Err(Failure::MalformedHeader(s)),
    }
}

/// A field line: four spaces of indentation, then the two names around
/// ` -> `, neither of them empty.
pub open spec fn field_model(s: Seq<char>) -> Result<NamePair, Failure> {
    if !is_indented(s) {
        Err(Failure::MalformedIndent(s))
    } else {
        match names_around_sep(s.skip(4)) {
            Some(p) => Ok(p),
            None => Err(Failure::MalformedField(s)),
        }
    }
}

/// The part of a method line that holds the names: what follows its last `:`
/// (dropping any line-number range), without the indentation.
pub open spec fn method_segment(s: Seq<char>) -> Seq<char> {
    let seg = after_last_colon(s);
    if is_indented(seg) { seg.skip(4) } else { seg }
}

/// A method line: the signature before ` -> `, the short name after it,
/// neither of them empty.
pub open spec fn method_model(s: Seq<char>) -> Result<NamePair, Failure> {
    match names_around_sep(method_segment(s)) {
        Some(p) => Ok(p),
        None => Err(Failure::MalformedMethod(s)),
    }
}

/// A member line declares a method when a `(` follows its indentation.
pub open spec fn is_method_line(s: Seq<char>) -> bool {
    has_char_from(s, 4, '(')
}

/// `c` with one more member line read into it.
pub open spec fn add_member(c: ClassView, line: Seq<char>) -> Result<ClassView, Failure> {
    if is_method_line(line) {
        match method_model(line) {
            Ok(m) => Ok(ClassView { methods: c.methods.push(m), ..c }),
            Err(e) => Err(e),
        }
    } else {
        match field_model(line) {
            Ok(f) => Ok(ClassView { fields: c.fields.push(f), ..c }),
            Err(e) => Err(e),
        }
    }
}

/// `c` with the member lines read into it one after another.
pub open spec fn members_model(c: ClassView, lines: Seq<Seq<char>>) -> Result<ClassView, Failure>
    decreases lines.len(),
{
    if lines.len() == 0 {
        Ok(c)
    } else {
        match members_model(c, lines.drop_last()) {
            Ok(c2) => add_member(c2, lines.last()),
            Err(e) => Err(e),
        }
    }
}

/// Once reading the first `n` member lines fails, reading all of them fails
/// the same way.
pub proof fn lemma_members_failure_persists(c: ClassView, lines: Seq<Seq<char>>, n: int)
    requires
        0 <= n <= lines.len(),
        members_model(c, lines.take(n)) is Err,
    ensures
        members_model(c, lines) == members_model(c, lines.take(n)),
    decreases lines.len(),
{
    if n == lines.len() {
        assert(lines.take(n) =~= lines);
    } else {
        assert(lines.drop_last().take(n) =~= lines.take(n));
        lemma_members_failure_persists(c, lines.drop_last(), n);
    }
}

/// A class with no members yet.
pub open spec fn new_class(h: NamePair) -> ClassView {
    ClassView {
        deobfuscated: h.deobfuscated,
        obfuscated: h.obfuscated,
        fields: Seq::empty(),
        methods: Seq::empty(),
    }
}

/// A class block: a header line, then its member lines.
pub open spec fn class_model(block: Seq<Seq<char>>) -> Result<ClassView, Failure> {
    if block.len() == 0 {
        Err(Failure::EmptyDocument)
    } else {
        match header_model(block[0]) {
            Ok(h) => members_model(new_class(h), block.skip(1)),
            Err(e) => Err(e),
        }
    }
}

/// The characters `s[lo..]`.
fn tail_of(s: &Vec<char>, lo: usize) -> (r: Vec<char>)
    requires
        lo <= s@.len(),
    ensures
        r@ == s@.skip(lo as int),
{
    let mut r: Vec<char> = Vec::new();
    let mut i: usize = lo;
    while i < s.len()
        invariant
            lo <= i <= s@.len(),
            r@ == s@.subrange(lo as int, i as int),
        decreases s@.len() - i,
    {
        r.push(s[i]);
        assert(s@.subrange(lo as int, i + 1) =~= s@.subrange(lo as int, i as int).push(s@[i as int]));
        i = i + 1;
    }
    assert(r@ =~= s@.skip(lo as int));
    r
}

/// The names around the first separator of `s`, when both are present.
fn split_names(s: &Vec<char>) -> (r: Option<(String, String)>)
    ensures
        match r {
            Some((d, o)) => names_around_sep(s@) == Some(NamePair { deobfuscated: d@, obfuscated: o@ }),
            None => names_around_sep(s@) is None,
        },
{
    match find_sep(s) {
        Some(k) => {
            let n = s.len();
            assert(sep_at(s@, k as int));
            let d = string_of(s, 0, k);
            let o = string_of(s, k + 4, n);
            assert(d@ =~= s@.take(k as int));
            assert(o@ =~= s@.skip(k + 4));
            if d.unicode_len() > 0 && o.unicode_len() > 0 {
                Some((d, o))
            } else {
                None
            }
        },
        None => None,
    }
}

/// The line as a string, for an error.
pub fn line_of(s: &Vec<char>) -> (r: String)
    ensures
        r@ == s@,
{
    let r = string_of(s, 0, s.len());
    assert(r@ =~= s@);
    r
}

/// Reads a class header line.
pub fn parse_header(s: &Vec<char>) -> (r: Result<(String, String), MappingError>)
    ensures
        match r {
            Ok((d, o)) => header_model(s@) == Ok::<NamePair, Failure>(NamePair { deobfuscated: d@, obfuscated: o@ }),
            Err(e) => header_model(s@) == Err::<NamePair, Failure>(e@),
        },
{
    match find_sep(s) {
        Some(k) => {
            assert(sep_at(s@, k as int));
            let n = s.len();
            let end = if n > k + 4 && s[n - 1] == ':' { n - 1 } else { n };
            let d = string_of(s, 0, k);
            let o = string_of(s, k + 4, end);
            assert(d@ =~= s@.take(k as int));
            assert(o@ =~= strip_colon(s@.skip(k + 4)));
            if d.unicode_len() > 0 && o.unicode_len() > 0 {
                Ok((d, o))
            } else {
                Err(MappingError::MalformedHeader(line_of(s)))
            }
        },
        None => Err(MappingError::MalformedHeader(line_of(s))),
    }
}

/// Reads a field line.
pub fn parse_field(s: &Vec<char>) -> (r: Result<ProguardField, MappingError>)
    ensures
        match r {
            Ok(f) => field_model(s@) == Ok::<NamePair, Failure>(f@),
            Err(e) => field_model(s@) == Err::<NamePair, Failure>(e@),
        },
{
    if !indented(s) {
        return Err(MappingError::MalformedIndent(line_of(s)));
    }
    let rest = tail_of(s, 4);
    match split_names(&rest) {
        Some((d, o)) => Ok(ProguardField { deobfed: d, obfed: o }),
        None => Err(MappingError::MalformedField(line_of(s))),
    }
}

/// Reads a method line.
pub fn parse_method(s: &Vec<char>) -> (r: Result<ProguardMethod, MappingError>)
    ensures
        match r {
            Ok(m) => method_model(s@) == Ok::<NamePair, Failure>(m@),
            Err(e) => method_model(s@) == Err::<NamePair, Failure>(e@),
        },
{
    let a = after_colon(s);
    let seg = tail_of(s, a);
    let work = if indented(&seg) { tail_of(&seg, 4) } else { seg };
    match split_names(&work) {
        Some((d, o)) => Ok(ProguardMethod { deobfed: d, obfed: o }),
        None => Err(MappingError::MalformedMethod(line_of(s))),
    }
}

/// The lines' characters.
pub open spec fn lines_of(v: Seq<String>) -> Seq<Seq<char>> {
    v.map_values(|s: String| s@)
}

impl ProguardMethod {
    /// Reads a method line, with or without a line-number range.
    pub fn deserialize(data: &String) -> (r: Result<Self, MappingError>)
        ensures
            match r {
                Ok(m) => method_model(data@) == Ok::<NamePair, Failure>(m@),
                Err(e) => method_model(data@) == Err::<NamePair, Failure>(e@),
            },
    {
        parse_method(&chars_of(data.as_str()))
    }

    /// An independent copy with the same names.
    pub fn copy(&self) -> (r: Self)
        ensures
            r@ == self@,
    {
        ProguardMethod { deobfed: self.deobfed.clone(), obfed: self.obfed.clone() }
    }
}

impl ProguardField {
    /// Reads an indented field line.
    pub fn deserialize(data: &String) -> (r: Result<Self, MappingError>)
        ensures
            match r {
                Ok(f) => field_model(data@) == Ok::<NamePair, Failure>(f@),
                Err(e) => field_model(data@) == Err::<NamePair, Failure>(e@),
            },
    {
        parse_field(&chars_of(data.as_str()))
    }

    /// An independent copy with the same names.
    pub fn copy(&self) -> (r: Self)
        ensures
            r@ == self@,
    {
        ProguardField { deobfed: self.deobfed.clone(), obfed: self.obfed.clone() }
    }
}

impl ProguardClass {
    /// A class with the given names and no members.
    pub fn from_header(deobfed: String, obfed: String) -> (r: Self)
        ensures
            r@ == new_class(NamePair { deobfuscated: deobfed@, obfuscated: obfed@ }),
    {
        let r = ProguardClass { deobfed, obfed, fields: Vec::new(), methods: Vec::new() };
        assert(r@.fields =~= Seq::<NamePair>::empty());
        assert(r@.methods =~= Seq::<NamePair>::empty());
        r
    }

    /// Reads one member line into the class, as a method or a field.
    pub fn read_member(&mut self, line: &Vec<char>) -> (r: Result<(), MappingError>)
        ensures
            match r {
                Ok(_) => add_member(old(self)@, line@) == Ok::<ClassView, Failure>(final(self)@),
                Err(e) => add_member(old(self)@, line@) == Err::<ClassView, Failure>(e@),
            },
    {
        if has_char(line, 4, '(') {
            match parse_method(line) {
                Ok(m) => {
                    proof {
                        self.methods@.lemma_push_map_commute(|m: ProguardMethod| m@, m);
                    }
                    self.methods.push(m);
                    Ok(())
                },
                Err(e) => Err(e),
            }
        } else {
            match parse_field(line) {
                Ok(f) => {
                    proof {
                        self.fields@.lemma_push_map_commute(|f: ProguardField| f@, f);
                    }
                    self.fields.push(f);
                    Ok(())
                },
                Err(e) => Err(e),
            }
        }
    }

    /// Reads a class block: its header line first, then its member lines.
    pub fn deserialize(data: &Vec<String>) -> (r: Result<Self, MappingError>)
        ensures
            match r {
                Ok(c) => class_model(lines_of(data@)) == Ok::<ClassView, Failure>(c@),
                Err(e) => class_model(lines_of(data@)) == Err::<ClassView, Failure>(e@),
            },
    {
        let ghost lines = lines_of(data@);
        if data.len() == 0 {
            return Err(MappingError::EmptyDocument);
        }
        let (d, o) = match parse_header(&chars_of(data[0].as_str())) {
            Ok(h) => h,
            Err(e) => return Err(e),
        };
        let mut c = ProguardClass::from_header(d, o);
        let ghost h = NamePair { deobfuscated: d@, obfuscated: o@ };
        let mut i: usize = 1;
        while i < data.len()
            invariant
                1 <= i <= data@.len(),
                lines == lines_of(data@),
                lines.len() == data@.len(),
                header_model(lines[0]) == Ok::<NamePair, Failure>(h),
                members_model(new_class(h), lines.skip(1).take(i - 1)) == Ok::<ClassView, Failure>(c@),
            decreases data@.len() - i,
        {
            let line = chars_of(data[i].as_str());
            assert(lines.skip(1).take(i as int).drop_last() =~= lines.skip(1).take(i - 1));
            assert(lines.skip(1).take(i as int).last() == line@);
            match c.read_member(&line) {
                Ok(_) => {},
                Err(e) => {
                    proof {
                        lemma_members_failure_persists(new_class(h), lines.skip(1), i as int);
                    }
                    return Err(e);
                },
            }
            i = i + 1;
        }
        assert(lines.skip(1).take(i - 1) =~= lines.skip(1));
        Ok(c)
    }

    /// An independent copy with the same names, fields and methods.
    pub fn copy(&self) -> (r: Self)
        ensures
            r@ == self@,
    {
        let mut fields: Vec<ProguardField> = Vec::new();
        let mut i: usize = 0;
        while i < self.fields.len()
            invariant
                i <= self.fields@.len(),
                field_views(fields@) =~= field_views(self.fields@.take(i as int)),
            decreases self.fields@.len() - i,
        {
            let f = self.fields[i].copy();
            proof {
                fields@.lemma_push_map_commute(|f: ProguardField| f@, f);
                self.fields@.take(i as int).lemma_push_map_commute(|f: ProguardField| f@, self.fields@[i as int]);
                assert(self.fields@.take(i + 1) =~= self.fields@.take(i as int).push(self.fields@[i as int]));
            }
            fields.push(f);
            i = i + 1;
        }
        assert(self.fields@.take(i as int) =~= self.fields@);
        let mut methods: Vec<ProguardMethod> = Vec::new();
        let mut j: usize = 0;
        while j < self.methods.len()
            invariant
                j <= self.methods@.len(),
                method_views(methods@) =~= method_views(self.methods@.take(j as int)),
            decreases self.methods@.len() - j,
        {
            let m = self.methods[j].copy();
            proof {
                methods@.lemma_push_map_commute(|m: ProguardMethod| m@, m);
                self.methods@.take(j as int).lemma_push_map_commute(|m: ProguardMethod| m@, self.methods@[j as int]);
                assert(self.methods@.take(j + 1) =~= self.methods@.take(j as int).push(self.methods@[j as int]));
            }
            methods.push(m);
            j = j + 1;
        }
        assert(self.methods@.take(j as int) =~= self.methods@);
        ProguardClass {
            deobfed: self.deobfed.clone(),
            obfed: self.obfed.clone(),
            fields,
            methods,
        }
    }
}

} // verus!
