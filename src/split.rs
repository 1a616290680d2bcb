//! Splitting a multi-sample variant file into single-sample files: what each
//! sample's file receives from one tab-separated record.
use vstd::prelude::*;

verus! {

/// Number of fixed columns before the first sample column.
pub const FIXED_COLUMNS: usize = 9;

/// Tab, the column separator.
pub const TAB: u8 = 9;

/// Fields joined by tabs.
pub open spec fn join_tab(fields: Seq<Seq<u8>>) -> Seq<u8>
    decreases fields.len(),
{
    if fields.len() == 0 {
        Seq::empty()
    } else if fields.len() == 1 {
        fields[0]
    } else {
        join_tab(fields.drop_last()).push(TAB) + fields.last()
    }
}

/// The cell of a sample with no call, `.:.`.
pub open spec fn is_empty_cell(v: Seq<u8>) -> bool {
    v == seq![46u8, 58u8, 46u8]
}

/// The fixed columns of a record, joined by tabs.
pub open spec fn fixed_part(fields: Seq<Seq<u8>>) -> Seq<u8> {
    join_tab(fields.take(if fields.len() < FIXED_COLUMNS { fields.len() as int } else { FIXED_COLUMNS as int }))
}

/// The line written for one sample: the fixed columns, then the sample's cell.
pub open spec fn sample_line(fields: Seq<Seq<u8>>, cell: Seq<u8>) -> Seq<u8> {
    fixed_part(fields).push(TAB) + cell
}

/// The (sample index, line) pairs for the sample columns before column `n`
/// whose cell is not empty, in column order.
pub open spec fn sample_lines(fields: Seq<Seq<u8>>, n: int) -> Seq<(usize, Seq<u8>)>
    decreases n,
{
    if n <= FIXED_COLUMNS {
        Seq::empty()
    } else if is_empty_cell(fields[n - 1]) {
        sample_lines(fields, n - 1)
    } else {
        sample_lines(fields, n - 1).push(((n - 1 - FIXED_COLUMNS) as usize, sample_line(fields, fields[n - 1])))
    }
}

/// A sample's header line: the metadata, a tab, the sample name.
pub open spec fn header_line_spec(meta: Seq<u8>, sample: Seq<u8>) -> Seq<u8> {
    meta.push(TAB) + sample
}

fn append_bytes(dst: &mut Vec<u8>, src: &Vec<u8>)
    ensures
        final(dst)@ == old(dst)@ + src@,
{
    let mut i: usize = 0;
    while i < src.len()
        invariant
            i <= src@.len(),
            dst@ == old(dst)@ + src@.take(i as int),
        decreases src@.len() - i,
    {
        dst.push(src[i]);
        i = i + 1;
        assert(dst@ =~= old(dst)@ + src@.take(i as int));
    }
    assert(src@.take(i as int) =~= src@);
}

fn is_empty_cell_exec(v: &Vec<u8>) -> (r: bool)
    ensures
        r == is_empty_cell(v@),
{
    let r = v.len() == 3 && v[0] == 46u8 && v[1] == 58u8 && v[2] == 46u8;
    if r {
        assert(v@ =~= seq![46u8, 58u8, 46u8]);
    }
    r
}

/// The header line of one sample's file.
pub fn header_line(meta: &Vec<u8>, sample: &Vec<u8>) -> (r: Vec<u8>)
    ensures
        r@ == header_line_spec(meta@, sample@),
{
    let mut r: Vec<u8> = Vec::new();
    append_bytes(&mut r, meta);
    r.push(TAB);
    append_bytes(&mut r, sample);
    assert(r@ =~= header_line_spec(meta@, sample@));
    r
}

/// For one record, split into its tab-separated fields, the line that each
/// sample with a call receives, with the sample's index among the sample columns.
pub fn split_record(fields: &Vec<Vec<u8>>) -> (r: Vec<(usize, Vec<u8>)>)
    ensures
        r@.len() == sample_lines(fields@.map_values(|f: Vec<u8>| f@), fields@.len() as int).len(),
        forall|k: int| 0 <= k < r@.len() ==> {
            let (s, line) = #[trigger] r@[k];
            let e = sample_lines(fields@.map_values(|f: Vec<u8>| f@), fields@.len() as int)[k];
            s == e.0 && line@ == e.1
        },
{
    let ghost fs = fields@.map_values(|f: Vec<u8>| f@);
    let fixed = if fields.len() < FIXED_COLUMNS { fields.len() } else { FIXED_COLUMNS };
    let mut prefix: Vec<u8> = Vec::new();
    let mut j: usize = 0;
    while j < fixed
        invariant
            j <= fixed <= fields@.len(),
            fs == fields@.map_values(|f: Vec<u8>| f@),
            prefix@ == join_tab(fs.take(j as int)),
        decreases fixed - j,
    {
        if j > 0 {
            prefix.push(TAB);
        }
        append_bytes(&mut prefix, &fields[j]);
        assert(fs.take(j as int + 1).drop_last() =~= fs.take(j as int));
        j = j + 1;
    }
    assert(prefix@ == fixed_part(fs));
    let mut r: Vec<(usize, Vec<u8>)> = Vec::new();
    let mut i: usize = fixed;
    while i < fields.len()
        invariant
            fixed <= i <= fields@.len(),
            fixed == FIXED_COLUMNS || i == fields@.len(),
            fs == fields@.map_values(|f: Vec<u8>| f@),
            prefix@ == fixed_part(fs),
            r@.len() == sample_lines(fs, i as int).len(),
            forall|k: int| 0 <= k < r@.len() ==> {
                let (s, line) = #[trigger] r@[k];
                let e = sample_lines(fs, i as int)[k];
                s == e.0 && line@ == e.1
            },
        decreases fields@.len() - i,
    {
        let ghost before = r@;
        if !is_empty_cell_exec(&fields[i]) {
            let mut line: Vec<u8> = Vec::new();
            append_bytes(&mut line, &prefix);
            line.push(TAB);
            append_bytes(&mut line, &fields[i]);
            assert(line@ =~= sample_line(fs, fs[i as int]));
            r.push((i - FIXED_COLUMNS, line));
            assert(forall|k: int| 0 <= k < before.len() ==> r@[k] == before[k]);
        }
        i = i + 1;
    }
    proof {
        if fixed < FIXED_COLUMNS {
            assert(sample_lines(fs, fields@.len() as int) == Seq::<(usize, Seq<u8>)>::empty());
        }
    }
    r
}

} // verus!
