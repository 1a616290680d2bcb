//! The reference signature catalog: one probability distribution over the
//! mutation categories per signature, held in fixed point.
use vstd::prelude::*;
use crate::category::{label_category, MutationCategory, NUM_CATEGORIES};

verus! {

/// Fixed-point unit of a probability: `PROBABILITY_SCALE` stands for one.
pub const PROBABILITY_SCALE: i64 = 1_000_000_000;

/// How far a row's sum may stray from `PROBABILITY_SCALE`.
pub const PROBABILITY_TOLERANCE: i64 = 1_000;

/// Why a catalog was refused.
#[derive(Clone, Copy, Debug, PartialEq, Eq, Structural)]
pub enum CatalogError {
    /// A row has a negative entry, a sum away from one, or the wrong length,
    /// or the names do not match the rows one for one.
    MalformedSignatureCatalog,
    /// The columns are not the mutation categories, each named once.
    CategoryMismatch,
}

/// Sum of a row.
pub open spec fn row_sum(s: Seq<i64>) -> int
    decreases s.len(),
{
    if s.len() == 0 {
        0
    } else {
        row_sum(s.drop_last()) + s.last()
    }
}

/// A probability distribution over the categories, within the tolerance.
pub open spec fn is_distribution(s: Seq<i64>) -> bool {
    &&& s.len() == NUM_CATEGORIES
    &&& forall|k: int| 0 <= k < s.len() ==> s[k] >= 0
    &&& PROBABILITY_SCALE - PROBABILITY_TOLERANCE <= row_sum(s) <= PROBABILITY_SCALE + PROBABILITY_TOLERANCE
}

/// The column labels name every category, each exactly once.
pub open spec fn columns_reconcile(cols: Seq<Seq<u8>>) -> bool {
    &&& cols.len() == NUM_CATEGORIES
    &&& forall|j: int| 0 <= j < cols.len() ==> (#[trigger] label_category(cols[j])) is Some
    &&& forall|j1: int, j2: int| 0 <= j1 < cols.len() && 0 <= j2 < cols.len() && j1 != j2
        ==> label_category(cols[j1]) != label_category(cols[j2])
    &&& forall|k: int| 0 <= k < NUM_CATEGORIES ==> #[trigger] has_column(cols, k)
}

/// Some column holds category `k`.
pub open spec fn has_column(cols: Seq<Seq<u8>>, k: int) -> bool {
    exists|j: int| 0 <= j < cols.len() && label_category(cols[j]) == Some(k)
}

/// The column that holds category `k`.
pub open spec fn column_of(cols: Seq<Seq<u8>>, k: int) -> int {
    choose|j: int| 0 <= j < cols.len() && label_category(cols[j]) == Some(k)
}

/// A row rearranged into the canonical category order.
pub open spec fn reordered(cols: Seq<Seq<u8>>, row: Seq<i64>) -> Seq<i64> {
    Seq::new(NUM_CATEGORIES as nat, |k: int| row[column_of(cols, k)])
}

/// The outcome of loading a catalog given its columns and rows.
pub open spec fn rows_valid(cols: Seq<Seq<u8>>, rows: Seq<Vec<i64>>) -> bool {
    forall|i: int| 0 <= i < rows.len() ==> #[trigger] rows[i]@.len() == cols.len()
        && is_distribution(reordered(cols, rows[i]@))
}

/// For each category, the column that holds it; `None` when the columns do not reconcile.
fn column_slots(columns: &Vec<Vec<u8>>) -> (r: Option<Vec<usize>>)
    ensures
        ({
            let cols = columns@.map_values(|c: Vec<u8>| c@);
            match r {
                None => !columns_reconcile(cols),
                Some(s) => columns_reconcile(cols) && s@.len() == NUM_CATEGORIES
                    && forall|k: int| 0 <= k < NUM_CATEGORIES ==> #[trigger] s@[k] as int == column_of(cols, k),
            }
        }),
{
    let ghost cols = columns@.map_values(|c: Vec<u8>| c@);
    if columns.len() != NUM_CATEGORIES {
        return None;
    }
    let mut slots: Vec<usize> = Vec::new();
    let mut k: usize = 0;
    while k < NUM_CATEGORIES
        invariant
            k <= NUM_CATEGORIES,
            slots@.len() == k,
            forall|m: int| 0 <= m < k ==> slots@[m] == NUM_CATEGORIES,
        decreases NUM_CATEGORIES - k,
    {
        slots.push(NUM_CATEGORIES);
        k = k + 1;
    }
    let mut j: usize = 0;
    while j < NUM_CATEGORIES
        invariant
            j <= NUM_CATEGORIES,
            columns@.len() == NUM_CATEGORIES,
            cols == columns@.map_values(|c: Vec<u8>| c@),
            slots@.len() == NUM_CATEGORIES,
            forall|m: int| 0 <= m < NUM_CATEGORIES ==> #[trigger] slots@[m] == NUM_CATEGORIES
                || (slots@[m] < j && label_category(cols[slots@[m] as int]) == Some(m)),
            forall|m: int| 0 <= m < j ==> (#[trigger] label_category(cols[m])) is Some
                && slots@[label_category(cols[m])->Some_0] == m,
        decreases NUM_CATEGORIES - j,
    {
        let c = match MutationCategory::from_label(&columns[j]) {
            Some(c) => c,
            None => return None,
        };
        assert(cols[j as int] == columns@[j as int]@);
        if slots[c.index] != NUM_CATEGORIES {
            proof {
                let m = slots@[c.index as int] as int;
                assert(label_category(cols[m]) == label_category(cols[j as int]));
            }
            return None;
        }
        slots.set(c.index, j);
        j = j + 1;
    }
    let mut k: usize = 0;
    while k < NUM_CATEGORIES
        invariant
            k <= NUM_CATEGORIES,
            columns@.len() == NUM_CATEGORIES,
            cols == columns@.map_values(|c: Vec<u8>| c@),
            slots@.len() == NUM_CATEGORIES,
            forall|m: int| 0 <= m < NUM_CATEGORIES ==> #[trigger] slots@[m] == NUM_CATEGORIES
                || (slots@[m] < NUM_CATEGORIES && label_category(cols[slots@[m] as int]) == Some(m)),
            forall|m: int| 0 <= m < NUM_CATEGORIES ==> (#[trigger] label_category(cols[m])) is Some
                && slots@[label_category(cols[m])->Some_0] == m,
            forall|m: int| 0 <= m < k ==> slots@[m] < NUM_CATEGORIES,
        decreases NUM_CATEGORIES - k,
    {
        if slots[k] == NUM_CATEGORIES {
            proof {
                if has_column(cols, k as int) {
                    let j = choose|j: int| 0 <= j < cols.len() && label_category(cols[j]) == Some(k as int);
                    assert(label_category(cols[j]) is Some);
                }
            }
            return None;
        }
        k = k + 1;
    }
    proof {
        assert forall|j1: int, j2: int| 0 <= j1 < cols.len() && 0 <= j2 < cols.len() && j1 != j2
            implies label_category(cols[j1]) != label_category(cols[j2]) by {
            assert(label_category(cols[j1]) is Some);
            assert(label_category(cols[j2]) is Some);
        }
        assert forall|m: int| 0 <= m < NUM_CATEGORIES implies #[trigger] has_column(cols, m) by {
            assert(slots@[m] < NUM_CATEGORIES);
            assert(label_category(cols[slots@[m] as int]) == Some(m));
        }
        assert forall|m: int| 0 <= m < NUM_CATEGORIES implies #[trigger] slots@[m] as int == column_of(cols, m) by {
            let c = column_of(cols, m);
            assert(label_category(cols[slots@[m] as int]) == Some(m));
            assert(label_category(cols[c]) == Some(m));
            assert(label_category(cols[c]) is Some);
        }
    }
    Some(slots)
}

/// The row with entry `k` taken from column `slots[k]`.
fn reorder(row: &Vec<i64>, slots: &Vec<usize>) -> (r: Vec<i64>)
    requires
        forall|k: int| 0 <= k < slots@.len() ==> #[trigger] slots@[k] < row@.len(),
    ensures
        r@ == Seq::new(slots@.len(), |k: int| row@[slots@[k] as int]),
{
    let mut r: Vec<i64> = Vec::new();
    let mut k: usize = 0;
    while k < slots.len()
        invariant
            k <= slots@.len(),
            forall|m: int| 0 <= m < slots@.len() ==> #[trigger] slots@[m] < row@.len(),
            r@ == Seq::new(k as nat, |m: int| row@[slots@[m] as int]),
        decreases slots@.len() - k,
    {
        r.push(row[slots[k]]);
        k = k + 1;
        assert(r@ =~= Seq::new(k as nat, |m: int| row@[slots@[m] as int]));
    }
    r
}

/// Whether a row is a distribution over the categories.
fn check_distribution(row: &Vec<i64>) -> (r: bool)
    ensures
        r == is_distribution(row@),
{
    if row.len() != NUM_CATEGORIES {
        return false;
    }
    let mut sum: i128 = 0;
    let mut k: usize = 0;
    while k < row.len()
        invariant
            k <= row@.len(),
            row@.len() == NUM_CATEGORIES,
            sum as int == row_sum(row@.take(k as int)),
            0 <= sum <= k * 0x7fff_ffff_ffff_ffff,
            forall|m: int| 0 <= m < k ==> row@[m] >= 0,
        decreases row@.len() - k,
    {
        if row[k] < 0 {
            return false;
        }
        assert(row@.take(k as int + 1).drop_last() =~= row@.take(k as int));
        sum = sum + row[k] as i128;
        k = k + 1;
    }
    assert(row@.take(k as int) =~= row@);
    PROBABILITY_SCALE as i128 - PROBABILITY_TOLERANCE as i128 <= sum
        && sum <= PROBABILITY_SCALE as i128 + PROBABILITY_TOLERANCE as i128
}

/// An immutable catalog of reference signatures.
pub struct SignatureCatalog {
    names: Vec<String>,
    rows: Vec<Vec<i64>>,
}

impl SignatureCatalog {
    pub closed spec fn names_view(&self) -> Seq<Seq<char>> {
        self.names@.map_values(|s: String| s@)
    }

    /// Probabilities of signature `i`, in canonical category order.
    pub closed spec fn row_view(&self, i: int) -> Seq<i64> {
        self.rows@[i]@
    }

    pub open spec fn len_view(&self) -> int {
        self.names_view().len() as int
    }

    /// Every row is a distribution over the categories.
    pub closed spec fn wf(&self) -> bool {
        &&& self.names@.len() == self.rows@.len()
        &&& forall|i: int| 0 <= i < self.rows@.len() ==> is_distribution(#[trigger] self.rows@[i]@)
    }

    /// Checks a catalog whose columns are labelled `columns` (such as `A[C>T]G`)
    /// and rearranges its rows into the canonical category order.
    pub fn load(names: Vec<String>, columns: &Vec<Vec<u8>>, rows: Vec<Vec<i64>>) -> (r: Result<SignatureCatalog, CatalogError>)
        ensures
            ({
                let cols = columns@.map_values(|c: Vec<u8>| c@);
                if !columns_reconcile(cols) {
                    r == Err::<SignatureCatalog, CatalogError>(CatalogError::CategoryMismatch)
                } else if names@.len() != rows@.len() || !rows_valid(cols, rows@) {
                    r == Err::<SignatureCatalog, CatalogError>(CatalogError::MalformedSignatureCatalog)
                } else {
                    &&& r is Ok
                    &&& r->Ok_0.wf()
                    &&& r->Ok_0.names_view() == names@.map_values(|s: String| s@)
                    &&& forall|i: int| 0 <= i < rows@.len() ==> #[trigger] r->Ok_0.row_view(i) == reordered(cols, rows@[i]@)
                }
            }),
    {
        let ghost cols = columns@.map_values(|c: Vec<u8>| c@);
        let slots = match column_slots(columns) {
            Some(s) => s,
            None => return Err(CatalogError::CategoryMismatch),
        };
        if names.len() != rows.len() {
            return Err(CatalogError::MalformedSignatureCatalog);
        }
        let mut canonical: Vec<Vec<i64>> = Vec::new();
        let mut i: usize = 0;
        while i < rows.len()
            invariant
                i <= rows@.len(),
                columns_reconcile(cols),
                cols == columns@.map_values(|c: Vec<u8>| c@),
                slots@.len() == NUM_CATEGORIES,
                forall|k: int| 0 <= k < NUM_CATEGORIES ==> #[trigger] slots@[k] as int == column_of(cols, k),
                canonical@.len() == i,
                forall|m: int| 0 <= m < i ==> (#[trigger] rows@[m])@.len() == cols.len(),
                forall|m: int| 0 <= m < i ==> (#[trigger] canonical@[m])@ == reordered(cols, rows@[m]@),
                forall|m: int| 0 <= m < i ==> is_distribution((#[trigger] canonical@[m])@),
            decreases rows@.len() - i,
        {
            if rows[i].len() != columns.len() {
                assert(rows@[i as int]@.len() != cols.len());
                return Err(CatalogError::MalformedSignatureCatalog);
            }
            proof {
                assert forall|k: int| 0 <= k < slots@.len() implies #[trigger] slots@[k] < rows@[i as int]@.len() by {
                    assert(has_column(cols, k));
                }
            }
            let row = reorder(&rows[i], &slots);
            assert(row@ =~= reordered(cols, rows@[i as int]@));
            if !check_distribution(&row) {
                assert(!is_distribution(reordered(cols, rows@[i as int]@)));
                return Err(CatalogError::MalformedSignatureCatalog);
            }
            let ghost before = canonical@;
            let ghost rv = row@;
            canonical.push(row);
            assert(canonical@[i as int]@ == rv);
            assert(forall|m: int| 0 <= m < i ==> canonical@[m] == before[m]);
            i = i + 1;
        }
        assert forall|m: int| 0 <= m < rows@.len() implies #[trigger] rows@[m]@.len() == cols.len()
            && is_distribution(reordered(cols, rows@[m]@)) by {
            assert(canonical@[m]@ == reordered(cols, rows@[m]@));
        }
        let r = SignatureCatalog { names, rows: canonical };
        assert(forall|m: int| 0 <= m < rows@.len() ==> #[trigger] r.row_view(m) == r.rows@[m]@);
        Ok(r)
    }

    /// Number of signatures.
    pub fn len(&self) -> (r: usize)
        ensures
            r as int == self.len_view(),
    {
        self.names.len()
    }

    pub fn name(&self, i: usize) -> (r: &String)
        requires
            i < self.len_view(),
        ensures
            r@ == self.names_view()[i as int],
    {
        &self.names[i]
    }

    /// Probabilities of signature `i`, in canonical category order.
    pub fn row(&self, i: usize) -> (r: &Vec<i64>)
        requires
            self.wf(),
            i < self.len_view(),
        ensures
            r@ == self.row_view(i as int),
            is_distribution(r@),
    {
        &self.rows[i]
    }
}

} // verus!
