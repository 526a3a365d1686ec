//! Case-sensitive substring lookups over classes, fields and methods.

use vstd::prelude::*;
use crate::document::{class_views, MappingIndex};
use crate::records::{
    field_views, method_views, ClassView, NamePair, ProguardClass, ProguardField, ProguardMethod,
};
use crate::text::chars_of;

verus! {

/// `needle` occurs in `hay` starting at position `i`.
pub open spec fn occurs_at(hay: Seq<char>, needle: Seq<char>, i: int) -> bool {
    0 <= i && i + needle.len() <= hay.len() && hay.subrange(i, i + needle.len()) == needle
}

/// A search hit: `needle` is not empty and occurs in `hay`.
pub open spec fn search_hit(hay: Seq<char>, needle: Seq<char>) -> bool {
    needle.len() > 0 && exists|i: int| #[trigger] occurs_at(hay, needle, i)
}

/// Classes whose readable name is a hit for `needle`.
pub open spec fn class_named_like(needle: Seq<char>) -> spec_fn(ClassView) -> bool {
    |c: ClassView| search_hit(c.deobfuscated, needle)
}

/// Fields or methods whose readable name is a hit for `needle`.
pub open spec fn pair_named_like(needle: Seq<char>) -> spec_fn(NamePair) -> bool {
    |p: NamePair| search_hit(p.deobfuscated, needle)
}

fn occurs_here(hay: &Vec<char>, needle: &Vec<char>, i: usize) -> (r: bool)
    requires
        i + needle@.len() <= hay@.len(),
    ensures
        r == occurs_at(hay@, needle@, i as int),
{
    let n = hay.len();
    let mut j: usize = 0;
    while j < needle.len()
        invariant
            n == hay@.len(),
            i + needle@.len() <= hay@.len(),
            j <= needle@.len(),
            forall|k: int| 0 <= k < j ==> hay@[i + k] == needle@[k],
        decreases needle@.len() - j,
    {
        if hay[i + j] != needle[j] {
            assert(hay@.subrange(i as int, i + needle@.len())[j as int] != needle@[j as int]);
            return false;
        }
        j = j + 1;
    }
    assert(hay@.subrange(i as int, i + needle@.len()) =~= needle@);
    true
}

/// Whether `needle` is not empty and occurs in `hay`.
pub fn is_hit(hay: &Vec<char>, needle: &Vec<char>) -> (r: bool)
    ensures
        r == search_hit(hay@, needle@),
{
    if needle.len() == 0 || needle.len() > hay.len() {
        return false;
    }
    let bound = hay.len() - needle.len() + 1;
    let mut i: usize = 0;
    while i < bound
        invariant
            bound == hay@.len() - needle@.len() + 1,
            needle@.len() > 0,
            i <= bound,
            forall|k: int| 0 <= k < i ==> !occurs_at(hay@, needle@, k),
        decreases bound - i,
    {
        if occurs_here(hay, needle, i) {
            assert(occurs_at(hay@, needle@, i as int));
            return true;
        }
        i = i + 1;
    }
    assert forall|k: int| !occurs_at(hay@, needle@, k) by {
        if 0 <= k < i {
        }
    }
    false
}

impl MappingIndex {
    /// Copies of the classes whose readable name contains `needle`, in order;
    /// none for an empty needle.
    pub fn find_classes_by_substring(&self, needle: &str) -> (r: Vec<ProguardClass>)
        ensures
            class_views(r@) == self@.filter(class_named_like(needle@)),
    {
        let pat = chars_of(needle);
        let ghost pred = class_named_like(needle@);
        let mut r: Vec<ProguardClass> = Vec::new();
        let mut i: usize = 0;
        assert(self@.take(0) =~= Seq::<ClassView>::empty());
        assert(class_views(r@) =~= Seq::<ClassView>::empty());
        while i < self.classes.len()
            invariant
                i <= self.classes@.len(),
                pat@ == needle@,
                pred == class_named_like(needle@),
                class_views(r@) == self@.take(i as int).filter(pred),
            decreases self.classes@.len() - i,
        {
            let c = &self.classes[i];
            assert(self@.take(i + 1) =~= self@.take(i as int).push(c@));
            proof {
                self@.take(i as int).lemma_filter_push(c@, pred);
            }
            if is_hit(&chars_of(c.deobfed.as_str()), &pat) {
                let k = c.copy();
                proof {
                    r@.lemma_push_map_commute(|c: ProguardClass| c@, k);
                }
                r.push(k);
            }
            i = i + 1;
        }
        assert(self@.take(i as int) =~= self@);
        r
    }
}

impl ProguardClass {
    /// Copies of the fields whose readable name contains `needle`, in order;
    /// none for an empty needle.
    pub fn find_fields_by_substring(&self, needle: &str) -> (r: Vec<ProguardField>)
        ensures
            field_views(r@) == self@.fields.filter(pair_named_like(needle@)),
    {
        let pat = chars_of(needle);
        let ghost pred = pair_named_like(needle@);
        let ghost all = self@.fields;
        let mut r: Vec<ProguardField> = Vec::new();
        let mut i: usize = 0;
        assert(all.take(0) =~= Seq::<NamePair>::empty());
        assert(field_views(r@) =~= Seq::<NamePair>::empty());
        while i < self.fields.len()
            invariant
                i <= self.fields@.len(),
                all == field_views(self.fields@),
                pat@ == needle@,
                pred == pair_named_like(needle@),
                field_views(r@) == all.take(i as int).filter(pred),
            decreases self.fields@.len() - i,
        {
            let f = &self.fields[i];
            assert(all.take(i + 1) =~= all.take(i as int).push(f@));
            proof {
                all.take(i as int).lemma_filter_push(f@, pred);
            }
            if is_hit(&chars_of(f.deobfed.as_str()), &pat) {
                let k = f.copy();
                proof {
                    r@.lemma_push_map_commute(|f: ProguardField| f@, k);
                }
                r.push(k);
            }
            i = i + 1;
        }
        assert(all.take(i as int) =~= all);
        r
    }

    /// Copies of the methods whose readable signature contains `needle`, in
    /// order; none for an empty needle.
    pub fn find_methods_by_substring(&self, needle: &str) -> (r: Vec<ProguardMethod>)
        ensures
            method_views(r@) == self@.methods.filter(pair_named_like(needle@)),
    {
        let pat = chars_of(needle);
        let ghost pred = pair_named_like(needle@);
        let ghost all = self@.methods;
        let mut r: Vec<ProguardMethod> = Vec::new();
        let mut i: usize = 0;
        assert(all.take(0) =~= Seq::<NamePair>::empty());
        assert(method_views(r@) =~= Seq::<NamePair>::empty());
        while i < self.methods.len()
            invariant
                i <= self.methods@.len(),
                all == method_views(self.methods@),
                pat@ == needle@,
                pred == pair_named_like(needle@),
                method_views(r@) == all.take(i as int).filter(pred),
            decreases self.methods@.len() - i,
        {
            let m = &self.methods[i];
            assert(all.take(i + 1) =~= all.take(i as int).push(m@));
            proof {
                all.take(i as int).lemma_filter_push(m@, pred);
            }
            if is_hit(&chars_of(m.deobfed.as_str()), &pat) {
                let k = m.copy();
                proof {
                    r@.lemma_push_map_commute(|m: ProguardMethod| m@, k);
                }
                r.push(k);
            }
            i = i + 1;
        }
        assert(all.take(i as int) =~= all);
        r
    }
}

} // verus!
