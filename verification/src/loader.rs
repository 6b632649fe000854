//! Loading a batch from delimited text.
//!
//! The input is rows separated by line feeds (a trailing carriage
//! return is dropped from each row, blank rows are ignored), with
//! comma-separated fields and no quoting. If the first non-blank row
//! has a field reading `username` it is taken as a header: its fields
//! must then be `username`, `amount` and optionally `memo`, each once,
//! in any order, and they fix which column is which. Without a header
//! the columns are recipient identity, amount, and an optional memo.
//! An empty field in the memo column means no memo. Any malformed row
//! fails the whole load: no partial batch is ever returned.

use vstd::prelude::*;

use crate::decimal::find_byte;
use crate::decimal::parse_decimal;
use crate::decimal::spec_parse_decimal;
use crate::record::PaymentRecord;
use crate::record::RecordView;
use crate::record::views_of;
use vstd::slice::slice_subrange;
use vstd::slice::slice_to_vec;

verus! {

/// Why one row was rejected.
#[derive(Clone, Copy, Debug, PartialEq, Eq, Structural)]
pub enum RowError {
    /// Fewer fields than the columns require.
    MissingField,
    /// More fields than the columns allow.
    ExtraField,
    /// The identity field is empty.
    EmptyIdentity,
    /// The amount field is not a decimal the pipeline accepts.
    BadAmount,
}

/// Why a load failed, naming the offending row.
#[derive(Clone, Copy, Debug, PartialEq, Eq, Structural)]
pub enum LoadError {
    /// The header names a column other than the three known ones,
    /// repeats one, or misses `amount`.
    BadHeader,
    /// Row `row` (counting every input row from zero, the header
    /// included) is malformed.
    Row { row: usize, kind: RowError },
}

/// Which field of a row holds what. `arity` is the exact field count a
/// row must have, or `None` for the headerless layout, where the memo
/// column may be left off entirely.
#[derive(Clone, Copy, Debug, PartialEq, Eq, Structural)]
pub struct Columns {
    pub identity: usize,
    pub amount: usize,
    pub memo: Option<usize>,
    pub arity: Option<usize>,
}

/// The segments of `s` between occurrences of `sep`; one segment, `s`
/// itself, when `sep` does not occur.
pub open spec fn split_on(s: Seq<u8>, sep: u8) -> Seq<Seq<u8>>
    decreases s.len(),
{
    let i = find_byte(s, sep);
    if 0 <= i < s.len() {
        seq![s.take(i)] + split_on(s.skip(i + 1), sep)
    } else {
        seq![s]
    }
}

/// A row with a trailing carriage return loses it.
pub open spec fn strip_cr(line: Seq<u8>) -> Seq<u8> {
    if line.len() > 0 && line.last() == 13u8 {
        line.drop_last()
    } else {
        line
    }
}

pub open spec fn lines_of(input: Seq<u8>) -> Seq<Seq<u8>> {
    split_on(input, 10u8).map_values(|l: Seq<u8>| strip_cr(l))
}

pub open spec fn fields_of(line: Seq<u8>) -> Seq<Seq<u8>> {
    split_on(line, 44u8)
}

/// The bytes of the column name `username`.
pub open spec fn col_username() -> Seq<u8> {
    seq![117u8, 115u8, 101u8, 114u8, 110u8, 97u8, 109u8, 101u8]
}

/// The bytes of the column name `amount`.
pub open spec fn col_amount() -> Seq<u8> {
    seq![97u8, 109u8, 111u8, 117u8, 110u8, 116u8]
}

/// The bytes of the column name `memo`.
pub open spec fn col_memo() -> Seq<u8> {
    seq![109u8, 101u8, 109u8, 111u8]
}

/// Index of the first element of `ss` equal to `x`, or `-1`.
pub open spec fn find_field(ss: Seq<Seq<u8>>, x: Seq<u8>) -> int
    decreases ss.len(),
{
    if ss.len() == 0 {
        -1
    } else if ss[0] == x {
        0
    } else if find_field(ss.skip(1), x) < 0 {
        -1
    } else {
        find_field(ss.skip(1), x) + 1
    }
}

pub proof fn lemma_find_field(ss: Seq<Seq<u8>>, x: Seq<u8>)
    ensures
        find_field(ss, x) < 0 ==> forall|i: int| 0 <= i < ss.len() ==> ss[i] != x,
        find_field(ss, x) >= 0 ==> find_field(ss, x) < ss.len() && ss[find_field(ss, x)] == x
            && forall|i: int| 0 <= i < find_field(ss, x) ==> ss[i] != x,
    decreases ss.len(),
{
    if ss.len() > 0 && ss[0] != x {
        lemma_find_field(ss.skip(1), x);
        assert forall|i: int| 1 <= i < ss.len() implies ss.skip(1)[i - 1] == ss[i] by {}
    }
}

/// How often `x` occurs in `ss`.
pub open spec fn count_eq(ss: Seq<Seq<u8>>, x: Seq<u8>) -> int
    decreases ss.len(),
{
    if ss.len() == 0 {
        0
    } else {
        count_eq(ss.drop_last(), x) + if ss.last() == x {
            1int
        } else {
            0int
        }
    }
}

/// A row is taken for the header exactly when one of its fields is
/// `username`: an identity column is mandatory either way, so a data
/// row never carries that literal field in the identity position of a
/// headerless file without being meant as a header.
pub open spec fn is_header(fields: Seq<Seq<u8>>) -> bool {
    find_field(fields, col_username()) >= 0
}

/// A recognized header is well formed when each known name occurs at
/// most once, `username` and `amount` occur, and nothing else does.
pub open spec fn header_columns(fields: Seq<Seq<u8>>) -> Option<Columns> {
    if count_eq(fields, col_username()) == 1 && count_eq(fields, col_amount()) == 1 && count_eq(
        fields,
        col_memo(),
    ) <= 1 && count_eq(fields, col_username()) + count_eq(fields, col_amount()) + count_eq(
        fields,
        col_memo(),
    ) == fields.len() {
        Some(
            Columns {
                identity: find_field(fields, col_username()) as usize,
                amount: find_field(fields, col_amount()) as usize,
                memo: if find_field(fields, col_memo()) >= 0 {
                    Some(find_field(fields, col_memo()) as usize)
                } else {
                    None
                },
                arity: Some(fields.len() as usize),
            },
        )
    } else {
        None
    }
}

/// The headerless layout: identity, amount, optional memo, by position.
pub open spec fn positional_columns() -> Columns {
    Columns { identity: 0, amount: 1, memo: Some(2), arity: None }
}

pub ghost struct RowModel {
    pub identity: Seq<u8>,
    pub amount: crate::decimal::Decimal,
    pub memo: Option<Seq<u8>>,
}

/// What one data row denotes under the given columns.
pub open spec fn parse_row(fields: Seq<Seq<u8>>, cols: Columns) -> Result<RowModel, RowError> {
    let need: int = match cols.arity {
        Some(n) => n as int,
        None => 2,
    };
    if fields.len() < need {
        Err(RowError::MissingField)
    } else if match cols.arity {
        Some(n) => fields.len() > n,
        None => fields.len() > 3,
    } {
        Err(RowError::ExtraField)
    } else if fields[cols.identity as int].len() == 0 {
        Err(RowError::EmptyIdentity)
    } else {
        match spec_parse_decimal(fields[cols.amount as int]) {
            None => Err(RowError::BadAmount),
            Some(d) => Ok(
                RowModel {
                    identity: fields[cols.identity as int],
                    amount: d,
                    memo: match cols.memo {
                        Some(m) => if m < fields.len() && fields[m as int].len() > 0 {
                            Some(fields[m as int])
                        } else {
                            None
                        },
                        None => None,
                    },
                },
            ),
        }
    }
}

/// The records the rows `ls` denote, blank rows skipped, the first row
/// numbered `row0`; or the first row error.
pub open spec fn parse_rows(ls: Seq<Seq<u8>>, cols: Columns, row0: int) -> Result<
    Seq<RecordView>,
    LoadError,
>
    decreases ls.len(),
{
    if ls.len() == 0 {
        Ok(Seq::empty())
    } else if ls[0].len() == 0 {
        parse_rows(ls.skip(1), cols, row0 + 1)
    } else {
        match parse_row(fields_of(ls[0]), cols) {
            Err(k) => Err(LoadError::Row { row: row0 as usize, kind: k }),
            Ok(m) => match parse_rows(ls.skip(1), cols, row0 + 1) {
                Err(e) => Err(e),
                Ok(rest) => Ok(seq![RecordView::fresh(m.identity, m.amount, m.memo)] + rest),
            },
        }
    }
}

/// Index of the first non-blank line, or `-1`.
pub open spec fn first_nonblank(ls: Seq<Seq<u8>>) -> int
    decreases ls.len(),
{
    if ls.len() == 0 {
        -1
    } else if ls[0].len() > 0 {
        0
    } else if first_nonblank(ls.skip(1)) < 0 {
        -1
    } else {
        first_nonblank(ls.skip(1)) + 1
    }
}

pub proof fn lemma_first_nonblank(ls: Seq<Seq<u8>>)
    ensures
        first_nonblank(ls) < 0 ==> forall|i: int| 0 <= i < ls.len() ==> ls[i].len() == 0,
        first_nonblank(ls) >= 0 ==> first_nonblank(ls) < ls.len() && ls[first_nonblank(
            ls,
        )].len() > 0 && forall|i: int| 0 <= i < first_nonblank(ls) ==> ls[i].len() == 0,
    decreases ls.len(),
{
    if ls.len() > 0 && ls[0].len() == 0 {
        lemma_first_nonblank(ls.skip(1));
        assert forall|i: int| 1 <= i < ls.len() implies ls.skip(1)[i - 1] == ls[i] by {}
    }
}

/// What a whole input file denotes: the ordered records of its data
/// rows, or the first error. An input with no non-blank row denotes
/// the empty batch.
pub open spec fn spec_load(input: Seq<u8>) -> Result<Seq<RecordView>, LoadError> {
    let ls = lines_of(input);
    let h = first_nonblank(ls);
    if h < 0 {
        Ok(Seq::empty())
    } else if is_header(fields_of(ls[h])) {
        match header_columns(fields_of(ls[h])) {
            None => Err(LoadError::BadHeader),
            Some(cols) => parse_rows(ls.skip(h + 1), cols, h + 1),
        }
    } else {
        parse_rows(ls.skip(h), positional_columns(), h)
    }
}

/// `find_field` is pinned by any witness of a first occurrence.
pub proof fn lemma_find_field_at(ss: Seq<Seq<u8>>, x: Seq<u8>, i: int)
    requires
        0 <= i < ss.len(),
        ss[i] == x,
        forall|j: int| 0 <= j < i ==> ss[j] != x,
    ensures
        find_field(ss, x) == i,
{
    lemma_find_field(ss, x);
    let r = find_field(ss, x);
    if r < 0 {
        assert(ss[i] != x);
    } else if r < i {
        assert(ss[r] != x);
    } else if r > i {
        assert(ss[i] != x);
    }
}

/// `first_nonblank` is pinned by any witness.
pub proof fn lemma_first_nonblank_at(ls: Seq<Seq<u8>>, i: int)
    requires
        0 <= i < ls.len(),
        ls[i].len() > 0,
        forall|j: int| 0 <= j < i ==> ls[j].len() == 0,
    ensures
        first_nonblank(ls) == i,
{
    lemma_first_nonblank(ls);
    let r = first_nonblank(ls);
    if r < 0 {
        assert(ls[i].len() == 0);
    } else if r < i {
        assert(ls[r].len() == 0);
    } else if r > i {
        assert(ls[i].len() == 0);
    }
}

/// The views of a sequence of byte vectors.
pub open spec fn seqs_of(v: Seq<Vec<u8>>) -> Seq<Seq<u8>> {
    v.map_values(|x: Vec<u8>| x@)
}

/// Splits `s[from..]` at each occurrence of `sep`.
fn split_on_exec(s: &[u8], from: usize, sep: u8) -> (r: Vec<Vec<u8>>)
    requires
        from <= s@.len(),
    ensures
        seqs_of(r@) == split_on(s@.skip(from as int), sep),
    decreases s@.len() - from,
{
    let ghost t = s@.skip(from as int);
    let n = s.len();
    match crate::decimal::find_byte_from(s, from, sep) {
        None => {
            let seg = slice_to_vec(slice_subrange(s, from, s.len()));
            let mut r: Vec<Vec<u8>> = Vec::new();
            r.push(seg);
            proof {
                assert(seg@ =~= t);
                assert(seqs_of(r@) =~= seq![t]);
            }
            r
        },
        Some(k) => {
            let seg = slice_to_vec(slice_subrange(s, from, from + k));
            let mut rest = split_on_exec(s, from + k + 1, sep);
            let ghost rest0 = rest@;
            rest.insert(0, seg);
            proof {
                assert(seg@ =~= t.take(k as int));
                assert(t.skip(k as int + 1) =~= s@.skip((from + k + 1) as int));
                assert(seqs_of(rest@) =~= seq![t.take(k as int)] + split_on(
                    t.skip(k as int + 1),
                    sep,
                ));
            }
            rest
        },
    }
}

/// The rows of the input: split at line feeds, each row stripped of a
/// trailing carriage return.
fn lines_exec(s: &[u8]) -> (r: Vec<Vec<u8>>)
    ensures
        seqs_of(r@) == lines_of(s@),
{
    let parts = split_on_exec(s, 0, 10);
    proof {
        assert(s@.skip(0) =~= s@);
    }
    let mut out: Vec<Vec<u8>> = Vec::new();
    let mut i: usize = 0;
    while i < parts.len()
        invariant
            i <= parts@.len(),
            seqs_of(parts@) == split_on(s@, 10u8),
            seqs_of(out@) =~= lines_of(s@).take(i as int),
        decreases parts@.len() - i,
    {
        let line = &parts[i];
        let n: usize = if line.len() > 0 && line[line.len() - 1] == 13 {
            line.len() - 1
        } else {
            line.len()
        };
        let seg = slice_to_vec(slice_subrange(line.as_slice(), 0, n));
        proof {
            assert(line@ == seqs_of(parts@)[i as int]);
            assert(seg@ =~= strip_cr(line@));
            assert(lines_of(s@)[i as int] == strip_cr(split_on(s@, 10u8)[i as int]));
        }
        let ghost out0 = out@;
        out.push(seg);
        proof {
            assert(lines_of(s@).len() == split_on(s@, 10u8).len());
            assert(seqs_of(parts@).len() == parts@.len());
            assert(seqs_of(out0).len() == out0.len());
            assert(out0.len() == i);
            assert(out@ == out0.push(seg));
            assert forall|j: int| 0 <= j < out@.len() implies seqs_of(out@)[j] == lines_of(
                s@,
            ).take(i + 1)[j] by {
                if j < i {
                    assert(out@[j] == out0[j]);
                    assert(seqs_of(out0)[j] == lines_of(s@).take(i as int)[j]);
                } else {
                    assert(out@[j] == seg);
                }
            }
            assert(seqs_of(out@) =~= lines_of(s@).take(i + 1));
        }
        i = i + 1;
    }
    proof {
        assert(lines_of(s@).take(parts@.len() as int) =~= lines_of(s@));
        assert(seqs_of(out@) =~= lines_of(s@));
    }
    out
}

/// The fields of one row: split at commas.
fn fields_exec(line: &Vec<u8>) -> (r: Vec<Vec<u8>>)
    ensures
        seqs_of(r@) == fields_of(line@),
{
    let r = split_on_exec(line.as_slice(), 0, 44);
    proof {
        assert(line@.skip(0) =~= line@);
    }
    r
}

/// The column name `username` as bytes.
fn username_bytes() -> (r: Vec<u8>)
    ensures
        r@ == col_username(),
{
    let mut v: Vec<u8> = Vec::new();
    v.push(117);
    v.push(115);
    v.push(101);
    v.push(114);
    v.push(110);
    v.push(97);
    v.push(109);
    v.push(101);
    proof {
        assert(v@ =~= col_username());
    }
    v
}

/// The column name `amount` as bytes.
fn amount_bytes() -> (r: Vec<u8>)
    ensures
        r@ == col_amount(),
{
    let mut v: Vec<u8> = Vec::new();
    v.push(97);
    v.push(109);
    v.push(111);
    v.push(117);
    v.push(110);
    v.push(116);
    proof {
        assert(v@ =~= col_amount());
    }
    v
}

/// The column name `memo` as bytes.
fn memo_bytes() -> (r: Vec<u8>)
    ensures
        r@ == col_memo(),
{
    let mut v: Vec<u8> = Vec::new();
    v.push(109);
    v.push(101);
    v.push(109);
    v.push(111);
    proof {
        assert(v@ =~= col_memo());
    }
    v
}

/// Byte-vector equality, pinned to view equality.
fn bytes_eq(a: &Vec<u8>, b: &Vec<u8>) -> (r: bool)
    ensures
        r == (a@ == b@),
{
    if a.len() != b.len() {
        return false;
    }
    let mut i: usize = 0;
    while i < a.len()
        invariant
            i <= a@.len(),
            a@.len() == b@.len(),
            forall|j: int| 0 <= j < i ==> a@[j] == b@[j],
        decreases a@.len() - i,
    {
        if a[i] != b[i] {
            return false;
        }
        i = i + 1;
    }
    proof {
        assert(a@ =~= b@);
    }
    true
}

/// First element of `fields` equal to `x`, by index.
fn find_field_exec(fields: &Vec<Vec<u8>>, x: &Vec<u8>) -> (r: Option<usize>)
    ensures
        r matches Some(k) ==> k < fields@.len() && find_field(seqs_of(fields@), x@) == k,
        r is None ==> find_field(seqs_of(fields@), x@) < 0,
{
    let ghost ss = seqs_of(fields@);
    let mut i: usize = 0;
    while i < fields.len()
        invariant
            i <= fields@.len(),
            ss == seqs_of(fields@),
            forall|j: int| 0 <= j < i ==> ss[j] != x@,
        decreases fields@.len() - i,
    {
        let f = &fields[i];
        proof {
            assert(ss[i as int] == f@);
        }
        if bytes_eq(f, x) {
            proof {
                lemma_find_field_at(ss, x@, i as int);
            }
            return Some(i);
        }
        i = i + 1;
    }
    proof {
        lemma_find_field(ss, x@);
        if find_field(ss, x@) >= 0 {
            assert(ss[find_field(ss, x@)] == x@);
        }
    }
    None
}

/// How often `x` occurs among `fields`.
fn count_eq_exec(fields: &Vec<Vec<u8>>, x: &Vec<u8>) -> (r: usize)
    ensures
        r == count_eq(seqs_of(fields@), x@),
{
    let ghost ss = seqs_of(fields@);
    let mut i: usize = 0;
    let mut cnt: usize = 0;
    while i < fields.len()
        invariant
            i <= fields@.len(),
            ss == seqs_of(fields@),
            cnt == count_eq(ss.take(i as int), x@),
            cnt <= i,
        decreases fields@.len() - i,
    {
        let f = &fields[i];
        proof {
            assert(ss[i as int] == f@);
            assert(ss.take(i + 1).drop_last() =~= ss.take(i as int));
            assert(ss.take(i + 1).last() == ss[i as int]);
        }
        if bytes_eq(f, x) {
            cnt = cnt + 1;
        }
        i = i + 1;
    }
    proof {
        assert(ss.take(fields@.len() as int) =~= ss);
    }
    cnt
}

/// Checks a recognized header and fixes the columns, as
/// [`header_columns`] does.
fn header_columns_exec(fields: &Vec<Vec<u8>>) -> (r: Option<Columns>)
    ensures
        r == header_columns(seqs_of(fields@)),
        r matches Some(c) ==> cols_wf(c),
{
    let uname = username_bytes();
    let aname = amount_bytes();
    let mname = memo_bytes();
    let cu = count_eq_exec(fields, &uname);
    let ca = count_eq_exec(fields, &aname);
    let cm = count_eq_exec(fields, &mname);
    if !(cu == 1 && ca == 1 && cm <= 1 && cu + ca + cm == fields.len()) {
        return None;
    }
    let iu = match find_field_exec(fields, &uname) {
        Some(k) => k,
        None => {
            proof {
                lemma_count_positive_has_witness(seqs_of(fields@), col_username());
                lemma_find_field(seqs_of(fields@), col_username());
            }
            return None;
        },
    };
    let ia = match find_field_exec(fields, &aname) {
        Some(k) => k,
        None => {
            proof {
                lemma_count_positive_has_witness(seqs_of(fields@), col_amount());
                lemma_find_field(seqs_of(fields@), col_amount());
            }
            return None;
        },
    };
    let im = find_field_exec(fields, &mname);
    proof {
        if cm >= 1 {
            lemma_count_positive_has_witness(seqs_of(fields@), col_memo());
            lemma_find_field(seqs_of(fields@), col_memo());
        } else {
            lemma_count_zero_has_no_witness(seqs_of(fields@), col_memo());
            lemma_find_field(seqs_of(fields@), col_memo());
        }
    }
    Some(Columns { identity: iu, amount: ia, memo: im, arity: Some(fields.len()) })
}

/// A positive count has an occurrence.
pub proof fn lemma_count_positive_has_witness(ss: Seq<Seq<u8>>, x: Seq<u8>)
    requires
        count_eq(ss, x) > 0,
    ensures
        exists|i: int| 0 <= i < ss.len() && ss[i] == x,
    decreases ss.len(),
{
    if ss.len() > 0 {
        if ss.last() == x {
            assert(ss[ss.len() - 1] == x);
        } else {
            lemma_count_positive_has_witness(ss.drop_last(), x);
            let i = choose|i: int| 0 <= i < ss.drop_last().len() && ss.drop_last()[i] == x;
            assert(ss[i] == x);
        }
    }
}

/// A zero count has none.
pub proof fn lemma_count_zero_has_no_witness(ss: Seq<Seq<u8>>, x: Seq<u8>)
    requires
        count_eq(ss, x) == 0,
    ensures
        forall|i: int| 0 <= i < ss.len() ==> ss[i] != x,
    decreases ss.len(),
{
    lemma_count_nonnegative(ss, x);
    if ss.len() > 0 {
        lemma_count_nonnegative(ss.drop_last(), x);
        lemma_count_zero_has_no_witness(ss.drop_last(), x);
        assert forall|i: int| 0 <= i < ss.len() implies ss[i] != x by {
            if i < ss.len() - 1 {
                assert(ss.drop_last()[i] == ss[i]);
            }
        }
    }
}

pub proof fn lemma_count_nonnegative(ss: Seq<Seq<u8>>, x: Seq<u8>)
    ensures
        count_eq(ss, x) >= 0,
    decreases ss.len(),
{
    if ss.len() > 0 {
        lemma_count_nonnegative(ss.drop_last(), x);
    }
}

/// The columns point inside every row of their arity.
pub open spec fn cols_wf(cols: Columns) -> bool {
    match cols.arity {
        Some(n) => cols.identity < n && cols.amount < n && match cols.memo {
            Some(m) => m < n,
            None => true,
        },
        None => cols == positional_columns(),
    }
}

/// Parses one data row under the given columns, as [`parse_row`] does.
fn parse_row_exec(fields: &Vec<Vec<u8>>, cols: Columns) -> (r: Result<PaymentRecord, RowError>)
    requires
        cols_wf(cols),
    ensures
        r matches Ok(rec) ==> parse_row(seqs_of(fields@), cols) matches Ok(m) && rec@
            == RecordView::fresh(m.identity, m.amount, m.memo),
        r matches Err(k) ==> parse_row(seqs_of(fields@), cols) == Err::<RowModel, RowError>(k),
{
    let ghost ss = seqs_of(fields@);
    let need: usize = match cols.arity {
        Some(n) => n,
        None => 2,
    };
    if fields.len() < need {
        return Err(RowError::MissingField);
    }
    let over: bool = match cols.arity {
        Some(n) => fields.len() > n,
        None => fields.len() > 3,
    };
    if over {
        return Err(RowError::ExtraField);
    }
    let ident = &fields[cols.identity];
    if ident.len() == 0 {
        return Err(RowError::EmptyIdentity);
    }
    let amt = &fields[cols.amount];
    let d = match crate::decimal::parse_decimal(amt.as_slice()) {
        None => {
            return Err(RowError::BadAmount);
        },
        Some(d) => d,
    };
    let memo: Option<Vec<u8>> = match cols.memo {
        Some(m) => if m < fields.len() {
            let mf = &fields[m];
            if mf.len() > 0 {
                Some(slice_to_vec(mf.as_slice()))
            } else {
                None
            }
        } else {
            None
        },
        None => None,
    };
    let rec = PaymentRecord::new(slice_to_vec(ident.as_slice()), d, memo);
    Ok(rec)
}

/// First non-blank line, by index.
fn first_nonblank_exec(lines: &Vec<Vec<u8>>) -> (r: Option<usize>)
    ensures
        r matches Some(h) ==> h < lines@.len() && first_nonblank(seqs_of(lines@)) == h,
        r is None ==> first_nonblank(seqs_of(lines@)) < 0,
{
    let ghost ls = seqs_of(lines@);
    let mut i: usize = 0;
    while i < lines.len()
        invariant
            i <= lines@.len(),
            ls == seqs_of(lines@),
            forall|j: int| 0 <= j < i ==> ls[j].len() == 0,
        decreases lines@.len() - i,
    {
        let line = &lines[i];
        proof {
            assert(ls[i as int] == line@);
        }
        if line.len() > 0 {
            proof {
                lemma_first_nonblank_at(ls, i as int);
            }
            return Some(i);
        }
        i = i + 1;
    }
    proof {
        lemma_first_nonblank(ls);
        if first_nonblank(ls) >= 0 {
            assert(ls[first_nonblank(ls)].len() > 0);
        }
    }
    None
}

/// The headerless column layout, executably.
fn positional_columns_exec() -> (r: Columns)
    ensures
        r == positional_columns(),
        cols_wf(r),
{
    Columns { identity: 0, amount: 1, memo: Some(2), arity: None }
}

/// Parses the rows from line `i` on, as [`parse_rows`] does.
fn parse_rows_exec(lines: &Vec<Vec<u8>>, i: usize, cols: Columns) -> (r: Result<
    Vec<PaymentRecord>,
    LoadError,
>)
    requires
        i <= lines@.len(),
        cols_wf(cols),
    ensures
        r matches Ok(v) ==> parse_rows(seqs_of(lines@).skip(i as int), cols, i as int) matches Ok(
            s,
        ) && views_of(v@) == s,
        r matches Err(e) ==> parse_rows(seqs_of(lines@).skip(i as int), cols, i as int) == Err::<
            Seq<RecordView>,
            LoadError,
        >(e),
    decreases lines@.len() - i,
{
    let ghost ls = seqs_of(lines@).skip(i as int);
    proof {
        assert(seqs_of(lines@).len() == lines@.len());
    }
    if i == lines.len() {
        let v: Vec<PaymentRecord> = Vec::new();
        proof {
            assert(ls =~= Seq::<Seq<u8>>::empty());
            assert(views_of(v@) =~= Seq::<RecordView>::empty());
        }
        return Ok(v);
    }
    let line = &lines[i];
    proof {
        assert(seqs_of(lines@)[i as int] == line@);
        assert(ls[0] == line@);
        assert(ls.skip(1) =~= seqs_of(lines@).skip(i + 1));
    }
    if line.len() == 0 {
        return parse_rows_exec(lines, i + 1, cols);
    }
    let fields = fields_exec(line);
    match parse_row_exec(&fields, cols) {
        Err(k) => Err(LoadError::Row { row: i, kind: k }),
        Ok(rec) => {
            match parse_rows_exec(lines, i + 1, cols) {
                Err(e) => Err(e),
                Ok(rest) => {
                    let mut rest = rest;
                    let ghost rest0 = rest@;
                    rest.insert(0, rec);
                    proof {
                        assert(views_of(rest0).len() == rest0.len());
                        assert(views_of(rest@).len() == rest@.len());
                        assert(views_of(rest@) =~= seq![rec@] + views_of(rest0));
                    }
                    Ok(rest)
                },
            }
        },
    }
}

/// How many of the lines are non-blank.
pub open spec fn count_nonblank(ls: Seq<Seq<u8>>) -> int
    decreases ls.len(),
{
    if ls.len() == 0 {
        0
    } else {
        (if ls[0].len() > 0 {
            1int
        } else {
            0int
        }) + count_nonblank(ls.skip(1))
    }
}

/// The data rows of an input: its non-blank lines, less the header if
/// one is recognized.
pub open spec fn data_row_count(input: Seq<u8>) -> int {
    let ls = lines_of(input);
    let h = first_nonblank(ls);
    if h < 0 {
        0
    } else if is_header(fields_of(ls[h])) {
        count_nonblank(ls.skip(h + 1))
    } else {
        count_nonblank(ls.skip(h))
    }
}

/// A successful parse yields one record per non-blank line.
pub proof fn lemma_parse_rows_count(ls: Seq<Seq<u8>>, cols: Columns, row0: int)
    ensures
        parse_rows(ls, cols, row0) matches Ok(s) ==> s.len() == count_nonblank(ls),
    decreases ls.len(),
{
    if ls.len() == 0 {
    } else if ls[0].len() == 0 {
        lemma_parse_rows_count(ls.skip(1), cols, row0 + 1);
    } else {
        match parse_row(fields_of(ls[0]), cols) {
            Err(_) => {},
            Ok(_) => {
                lemma_parse_rows_count(ls.skip(1), cols, row0 + 1);
            },
        }
    }
}

/// A successful load yields exactly one record per data row of the
/// input, in row order (the order is pinned by `spec_load` itself).
pub proof fn lemma_load_row_count(input: Seq<u8>)
    ensures
        spec_load(input) matches Ok(s) ==> s.len() == data_row_count(input),
{
    let ls = lines_of(input);
    let h = first_nonblank(ls);
    if h >= 0 {
        if is_header(fields_of(ls[h])) {
            match header_columns(fields_of(ls[h])) {
                None => {},
                Some(cols) => {
                    lemma_parse_rows_count(ls.skip(h + 1), cols, h + 1);
                },
            }
        } else {
            lemma_parse_rows_count(ls.skip(h), positional_columns(), h);
        }
    }
}

/// Every record a parse produces is in the loader's shape: nothing
/// resolved, nothing converted, outcome pending, amount well formed.
pub proof fn lemma_parse_rows_loaded(ls: Seq<Seq<u8>>, cols: Columns, row0: int)
    ensures
        parse_rows(ls, cols, row0) matches Ok(s) ==> forall|i: int|
            0 <= i < s.len() ==> crate::record::loaded_rec(#[trigger] s[i]),
    decreases ls.len(),
{
    if ls.len() == 0 {
    } else if ls[0].len() == 0 {
        lemma_parse_rows_loaded(ls.skip(1), cols, row0 + 1);
    } else {
        match parse_row(fields_of(ls[0]), cols) {
            Err(_) => {},
            Ok(m) => {
                crate::decimal::lemma_spec_parse_decimal_wf(fields_of(ls[0])[cols.amount as int]);
                lemma_parse_rows_loaded(ls.skip(1), cols, row0 + 1);
                let r = parse_rows(ls, cols, row0);
                if r is Ok {
                    let s = r->Ok_0;
                    let rest = parse_rows(ls.skip(1), cols, row0 + 1);
                    assert forall|i: int| 0 <= i < s.len() implies crate::record::loaded_rec(
                        #[trigger] s[i],
                    ) by {
                        if i > 0 {
                            assert(s[i] == rest->Ok_0[i - 1]);
                        }
                    }
                }
            },
        }
    }
}

/// Whatever a whole load produces is in the loader's shape.
pub proof fn lemma_load_loaded(input: Seq<u8>)
    ensures
        spec_load(input) matches Ok(s) ==> forall|i: int|
            0 <= i < s.len() ==> crate::record::loaded_rec(#[trigger] s[i]),
{
    let ls = lines_of(input);
    let h = first_nonblank(ls);
    if h >= 0 {
        if is_header(fields_of(ls[h])) {
            match header_columns(fields_of(ls[h])) {
                None => {},
                Some(cols) => {
                    lemma_parse_rows_loaded(ls.skip(h + 1), cols, h + 1);
                },
            }
        } else {
            lemma_parse_rows_loaded(ls.skip(h), positional_columns(), h);
        }
    }
}

/// Loads a batch's records from delimited text.
///
/// Returns the ordered records of the data rows exactly as
/// [`spec_load`] reads the input, or the first error; no partial batch
/// is returned. An input with no non-blank row yields no records.
pub fn load_records(input: &[u8]) -> (r: Result<Vec<PaymentRecord>, LoadError>)
    ensures
        r matches Ok(v) ==> spec_load(input@) matches Ok(s) && views_of(v@) == s,
        r matches Err(e) ==> spec_load(input@) == Err::<Seq<RecordView>, LoadError>(e),
{
    let lines = lines_exec(input);
    let ghost ls = lines_of(input@);
    match first_nonblank_exec(&lines) {
        None => {
            let v: Vec<PaymentRecord> = Vec::new();
            proof {
                assert(views_of(v@) =~= Seq::<RecordView>::empty());
            }
            Ok(v)
        },
        Some(h) => {
            let line = &lines[h];
            proof {
                assert(ls[h as int] == line@);
            }
            let hf = fields_exec(line);
            let uname = username_bytes();
            let hdr = find_field_exec(&hf, &uname);
            match hdr {
                Some(_) => {
                    match header_columns_exec(&hf) {
                        None => Err(LoadError::BadHeader),
                        Some(cols) => parse_rows_exec(&lines, h + 1, cols),
                    }
                },
                None => parse_rows_exec(&lines, h, positional_columns_exec()),
            }
        },
    }
}

} // verus!
