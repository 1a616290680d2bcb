//! Mutation categories: six pyrimidine-centred substitution classes, each in
//! sixteen trinucleotide contexts.
use vstd::prelude::*;

verus! {

/// Number of mutation categories.
pub const NUM_CATEGORIES: usize = 96;

/// One somatic variant call together with its trinucleotide context.
pub struct Variant {
    pub chromosome: String,
    pub position: u64,
    /// Reference allele as written in the call.
    pub reference: Vec<u8>,
    /// Alternate allele(s) as written in the call; several are separated by commas.
    pub alternate: Vec<u8>,
    /// Reference base immediately 5' of the mutated base.
    pub before: u8,
    /// Reference base immediately 3' of the mutated base.
    pub after: u8,
}

/// A mutation category, identified by its position in the canonical ordering.
#[derive(Clone, Copy, Debug, PartialEq, Eq, Structural)]
pub struct MutationCategory {
    pub index: usize,
}

/// Why a variant has no mutation category.
#[derive(Clone, Copy, Debug, PartialEq, Eq, Structural)]
pub enum Unclassifiable {
    /// More than one alternate allele.
    MultiAllelic,
    /// Not a single-base substitution (an indel or a multi-base allele).
    NotSingleBase,
    /// The reference base is not one of A, C, G, T.
    AmbiguousReference,
    /// The alternate base is not one of A, C, G, T, or equals the reference.
    InvalidAlternate,
    /// A context base is not one of A, C, G, T.
    InvalidContext,
}

pub open spec fn is_base(b: u8) -> bool {
    b == 65u8 || b == 67u8 || b == 71u8 || b == 84u8
}

/// Rank of a base in the order A, C, G, T.
pub open spec fn base_rank(b: u8) -> int {
    if b == 65u8 { 0 } else if b == 67u8 { 1 } else if b == 71u8 { 2 } else { 3 }
}

/// The base of the given rank in the order A, C, G, T.
pub open spec fn base_of_rank(r: int) -> u8 {
    if r == 0 { 65u8 } else if r == 1 { 67u8 } else if r == 2 { 71u8 } else { 84u8 }
}

/// Watson-Crick complement; other bytes are left as they are.
pub open spec fn complement(b: u8) -> u8 {
    if b == 65u8 { 84u8 } else if b == 84u8 { 65u8 } else if b == 67u8 { 71u8 }
    else if b == 71u8 { 67u8 } else { b }
}

/// Rank of a substitution from a pyrimidine reference, in the order
/// C>A, C>G, C>T, T>A, T>C, T>G.
pub open spec fn substitution_rank(r: u8, a: u8) -> int {
    if r == 67u8 {
        if a == 65u8 { 0 } else if a == 71u8 { 1 } else { 2 }
    } else {
        if a == 65u8 { 3 } else if a == 67u8 { 4 } else { 5 }
    }
}

/// Reference and alternate base of the substitution of the given rank.
pub open spec fn substitution_of_rank(s: int) -> (u8, u8) {
    if s == 0 { (67u8, 65u8) } else if s == 1 { (67u8, 71u8) } else if s == 2 { (67u8, 84u8) }
    else if s == 3 { (84u8, 65u8) } else if s == 4 { (84u8, 67u8) } else { (84u8, 71u8) }
}

/// Category index of a single-base substitution `r>a` in context `before _ after`,
/// read on the strand where the reference base is a pyrimidine.
pub open spec fn category_index(r: u8, a: u8, before: u8, after: u8) -> int {
    if r == 67u8 || r == 84u8 {
        substitution_rank(r, a) * 16 + base_rank(before) * 4 + base_rank(after)
    } else {
        substitution_rank(complement(r), complement(a)) * 16 + base_rank(complement(after)) * 4
            + base_rank(complement(before))
    }
}

pub open spec fn has_comma(s: Seq<u8>) -> bool {
    exists|i: int| 0 <= i < s.len() && s[i] == 44u8
}

/// What classification yields for a variant: the category index, or why there is none.
pub open spec fn classification(v: Variant) -> Result<int, Unclassifiable> {
    classification_of_parts(v.reference@, v.alternate@, v.before, v.after)
}

/// A variant that the classifier accepts.
pub open spec fn is_classifiable(v: Variant) -> bool {
    classification(v) is Ok
}

/// The reference allele, alternate allele and context of a variant read on the
/// opposite strand.
pub open spec fn reverse_complement_of(v: Variant) -> (Seq<u8>, Seq<u8>, u8, u8) {
    (
        v.reference@.map_values(|b: u8| complement(b)),
        v.alternate@.map_values(|b: u8| complement(b)),
        complement(v.after),
        complement(v.before),
    )
}

/// Classification of a variant given by its alleles and context.
pub open spec fn classification_of_parts(reference: Seq<u8>, alternate: Seq<u8>, before: u8, after: u8) -> Result<int, Unclassifiable> {
    if has_comma(alternate) {
        Err(Unclassifiable::MultiAllelic)
    } else if reference.len() != 1 || alternate.len() != 1 {
        Err(Unclassifiable::NotSingleBase)
    } else if !is_base(reference[0]) {
        Err(Unclassifiable::AmbiguousReference)
    } else if !is_base(alternate[0]) || alternate[0] == reference[0] {
        Err(Unclassifiable::InvalidAlternate)
    } else if !is_base(before) || !is_base(after) {
        Err(Unclassifiable::InvalidContext)
    } else {
        Ok(category_index(reference[0], alternate[0], before, after))
    }
}

/// Every classifiable variant falls in exactly one of the categories, and the
/// same mutation read on the opposite strand falls in the same one.
pub proof fn lemma_classification_strand_symmetric(v: Variant)
    requires
        is_classifiable(v),
    ensures
        0 <= classification(v)->Ok_0 < NUM_CATEGORIES as int,
        ({
            let (r, a, b, c) = reverse_complement_of(v);
            classification_of_parts(r, a, b, c) == classification(v)
        }),
{
    let (r, a, b, c) = reverse_complement_of(v);
    assert(r[0] == complement(v.reference@[0]));
    assert(a[0] == complement(v.alternate@[0]));
    assert(!has_comma(a)) by {
        if has_comma(a) {
            let k = choose|k: int| 0 <= k < a.len() && a[k] == 44u8;
            assert(a[k] == complement(v.alternate@[k]));
        }
    }
}

/// Text label of a category, such as `A[C>T]G`: 5' base, the substitution in
/// brackets, 3' base.
pub open spec fn category_label(i: int) -> Seq<u8> {
    let (r, a) = substitution_of_rank(i / 16);
    seq![base_of_rank((i % 16) / 4), 91u8, r, 62u8, a, 93u8, base_of_rank(i % 4)]
}

/// The category that a label names, if it names one.
pub open spec fn label_category(l: Seq<u8>) -> Option<int> {
    if l.len() == 7 && l[1] == 91u8 && l[3] == 62u8 && l[5] == 93u8 && is_base(l[0]) && is_base(l[6])
        && (l[2] == 67u8 || l[2] == 84u8) && is_base(l[4]) && l[4] != l[2] {
        Some(substitution_rank(l[2], l[4]) * 16 + base_rank(l[0]) * 4 + base_rank(l[6]))
    } else {
        None
    }
}

/// Labels and categories correspond one to one.
pub proof fn lemma_label_round_trip(i: int, l: Seq<u8>)
    ensures
        0 <= i < NUM_CATEGORIES as int ==> label_category(category_label(i)) == Some(i),
        label_category(l) matches Some(k) ==> 0 <= k < NUM_CATEGORIES as int && category_label(k) == l,
{
    if label_category(l) is Some {
        let k = label_category(l)->Some_0;
        assert(category_label(k) =~= l);
    }
}

fn is_base_exec(b: u8) -> (r: bool)
    ensures
        r == is_base(b),
{
    b == 65u8 || b == 67u8 || b == 71u8 || b == 84u8
}

fn base_rank_exec(b: u8) -> (r: usize)
    ensures
        r as int == base_rank(b),
        r < 4,
{
    if b == 65u8 { 0 } else if b == 67u8 { 1 } else if b == 71u8 { 2 } else { 3 }
}

fn base_of_rank_exec(r: usize) -> (b: u8)
    ensures
        b == base_of_rank(r as int),
{
    if r == 0 { 65u8 } else if r == 1 { 67u8 } else if r == 2 { 71u8 } else { 84u8 }
}

fn complement_exec(b: u8) -> (r: u8)
    ensures
        r == complement(b),
{
    if b == 65u8 { 84u8 } else if b == 84u8 { 65u8 } else if b == 67u8 { 71u8 }
    else if b == 71u8 { 67u8 } else { b }
}

fn contains_comma(s: &Vec<u8>) -> (r: bool)
    ensures
        r == has_comma(s@),
{
    let mut i: usize = 0;
    while i < s.len()
        invariant
            i <= s@.len(),
            forall|j: int| 0 <= j < i ==> s@[j] != 44u8,
        decreases s@.len() - i,
    {
        if s[i] == 44u8 {
            return true;
        }
        i = i + 1;
    }
    false
}

/// Maps a variant to its mutation category, or says why it has none.
pub fn classify(v: &Variant) -> (r: Result<MutationCategory, Unclassifiable>)
    ensures
        match classification(*v) {
            Ok(i) => r == Ok::<MutationCategory, Unclassifiable>(MutationCategory { index: i as usize }),
            Err(e) => r == Err::<MutationCategory, Unclassifiable>(e),
        },
        r is Ok ==> r->Ok_0.index < NUM_CATEGORIES,
{
    if contains_comma(&v.alternate) {
        return Err(Unclassifiable::MultiAllelic);
    }
    if v.reference.len() != 1 || v.alternate.len() != 1 {
        return Err(Unclassifiable::NotSingleBase);
    }
    let r = v.reference[0];
    let a = v.alternate[0];
    if !is_base_exec(r) {
        return Err(Unclassifiable::AmbiguousReference);
    }
    if !is_base_exec(a) || a == r {
        return Err(Unclassifiable::InvalidAlternate);
    }
    if !is_base_exec(v.before) || !is_base_exec(v.after) {
        return Err(Unclassifiable::InvalidContext);
    }
    let (pr, pa, five, three) = if r == 67u8 || r == 84u8 {
        (r, a, v.before, v.after)
    } else {
        (complement_exec(r), complement_exec(a), complement_exec(v.after), complement_exec(v.before))
    };
    let sub: usize = if pr == 67u8 {
        if pa == 65u8 { 0 } else if pa == 71u8 { 1 } else { 2 }
    } else {
        if pa == 65u8 { 3 } else if pa == 67u8 { 4 } else { 5 }
    };
    let index = sub * 16 + base_rank_exec(five) * 4 + base_rank_exec(three);
    Ok(MutationCategory { index })
}

impl Variant {
    /// The same mutation read on the opposite strand: both alleles and both
    /// context bases complemented, the context reversed.
    pub fn reverse_complement(&self) -> (r: Variant)
        ensures
            r.chromosome@ == self.chromosome@,
            r.position == self.position,
            r.reference@ == self.reference@.map_values(|b: u8| complement(b)),
            r.alternate@ == self.alternate@.map_values(|b: u8| complement(b)),
            r.before == complement(self.after),
            r.after == complement(self.before),
    {
        let mut reference: Vec<u8> = Vec::new();
        let mut i: usize = 0;
        while i < self.reference.len()
            invariant
                i <= self.reference@.len(),
                reference@ == self.reference@.take(i as int).map_values(|b: u8| complement(b)),
            decreases self.reference@.len() - i,
        {
            reference.push(complement_exec(self.reference[i]));
            i = i + 1;
            assert(reference@ =~= self.reference@.take(i as int).map_values(|b: u8| complement(b)));
        }
        assert(self.reference@.take(i as int) =~= self.reference@);
        let mut alternate: Vec<u8> = Vec::new();
        let mut j: usize = 0;
        while j < self.alternate.len()
            invariant
                j <= self.alternate@.len(),
                alternate@ == self.alternate@.take(j as int).map_values(|b: u8| complement(b)),
            decreases self.alternate@.len() - j,
        {
            alternate.push(complement_exec(self.alternate[j]));
            j = j + 1;
            assert(alternate@ =~= self.alternate@.take(j as int).map_values(|b: u8| complement(b)));
        }
        assert(self.alternate@.take(j as int) =~= self.alternate@);
        Variant {
            chromosome: self.chromosome.clone(),
            position: self.position,
            reference,
            alternate,
            before: complement_exec(self.after),
            after: complement_exec(self.before),
        }
    }
}

impl MutationCategory {
    /// The category's text label, such as `A[C>T]G`.
    pub fn label(&self) -> (r: Vec<u8>)
        requires
            self.index < NUM_CATEGORIES,
        ensures
            r@ == category_label(self.index as int),
    {
        let i = self.index;
        let sub = i / 16;
        let (rb, ab): (u8, u8) = if sub == 0 { (67u8, 65u8) } else if sub == 1 { (67u8, 71u8) }
            else if sub == 2 { (67u8, 84u8) } else if sub == 3 { (84u8, 65u8) }
            else if sub == 4 { (84u8, 67u8) } else { (84u8, 71u8) };
        let five = base_of_rank_exec((i % 16) / 4);
        let three = base_of_rank_exec(i % 4);
        let r = vec![five, 91u8, rb, 62u8, ab, 93u8, three];
        assert(r@ =~= category_label(i as int));
        r
    }

    /// The category that a text label names, if any.
    pub fn from_label(l: &Vec<u8>) -> (r: Option<MutationCategory>)
        ensures
            match label_category(l@) {
                Some(k) => r == Some(MutationCategory { index: k as usize }),
                None => r is None,
            },
            r matches Some(c) ==> c.index < NUM_CATEGORIES,
    {
        proof {
            lemma_label_round_trip(0, l@);
        }
        if l.len() != 7 || l[1] != 91u8 || l[3] != 62u8 || l[5] != 93u8 {
            return None;
        }
        let (five, rb, ab, three) = (l[0], l[2], l[4], l[6]);
        if !is_base_exec(five) || !is_base_exec(three) || !(rb == 67u8 || rb == 84u8)
            || !is_base_exec(ab) || ab == rb {
            return None;
        }
        let sub: usize = if rb == 67u8 {
            if ab == 65u8 { 0 } else if ab == 71u8 { 1 } else { 2 }
        } else {
            if ab == 65u8 { 3 } else if ab == 67u8 { 4 } else { 5 }
        };
        Some(MutationCategory { index: sub * 16 + base_rank_exec(five) * 4 + base_rank_exec(three) })
    }
}

} // verus!
