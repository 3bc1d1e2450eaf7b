//! The fixed words of the two languages: operator keywords, boolean and
//! structural keywords, scope-end markers of the flattened encoding, the
//! filler symbol paired with an end marker, and the in-band type-error
//! sentinel.

use vstd::prelude::*;

verus! {

/// `SUM`
pub open spec fn kw_sum() -> Seq<u8> {
    seq!['S' as u8, 'U' as u8, 'M' as u8]
}

/// `SUM`, as a fresh byte vector.
pub fn kw_sum_vec() -> (v: Vec<u8>)
    ensures
        v@ == kw_sum(),
{
    let v: Vec<u8> = vec!['S' as u8, 'U' as u8, 'M' as u8];
    proof {
        assert(v@ =~= kw_sum());
    }
    v
}

/// `MULTIPLY`
pub open spec fn kw_multiply() -> Seq<u8> {
    seq!['M' as u8, 'U' as u8, 'L' as u8, 'T' as u8, 'I' as u8, 'P' as u8, 'L' as u8, 'Y' as u8]
}

/// `MULTIPLY`, as a fresh byte vector.
pub fn kw_multiply_vec() -> (v: Vec<u8>)
    ensures
        v@ == kw_multiply(),
{
    let v: Vec<u8> = vec!['M' as u8, 'U' as u8, 'L' as u8, 'T' as u8, 'I' as u8, 'P' as u8, 'L' as u8, 'Y' as u8];
    proof {
        assert(v@ =~= kw_multiply());
    }
    v
}

/// `DIVIDE`
pub open spec fn kw_divide() -> Seq<u8> {
    seq!['D' as u8, 'I' as u8, 'V' as u8, 'I' as u8, 'D' as u8, 'E' as u8]
}

/// `DIVIDE`, as a fresh byte vector.
pub fn kw_divide_vec() -> (v: Vec<u8>)
    ensures
        v@ == kw_divide(),
{
    let v: Vec<u8> = vec!['D' as u8, 'I' as u8, 'V' as u8, 'I' as u8, 'D' as u8, 'E' as u8];
    proof {
        assert(v@ =~= kw_divide());
    }
    v
}

/// `CONCAT`
pub open spec fn kw_concat() -> Seq<u8> {
    seq!['C' as u8, 'O' as u8, 'N' as u8, 'C' as u8, 'A' as u8, 'T' as u8]
}

/// `CONCAT`, as a fresh byte vector.
pub fn kw_concat_vec() -> (v: Vec<u8>)
    ensures
        v@ == kw_concat(),
{
    let v: Vec<u8> = vec!['C' as u8, 'O' as u8, 'N' as u8, 'C' as u8, 'A' as u8, 'T' as u8];
    proof {
        assert(v@ =~= kw_concat());
    }
    v
}

/// `AND`
pub open spec fn kw_and() -> Seq<u8> {
    seq!['A' as u8, 'N' as u8, 'D' as u8]
}

/// `AND`, as a fresh byte vector.
pub fn kw_and_vec() -> (v: Vec<u8>)
    ensures
        v@ == kw_and(),
{
    let v: Vec<u8> = vec!['A' as u8, 'N' as u8, 'D' as u8];
    proof {
        assert(v@ =~= kw_and());
    }
    v
}

/// `OR`
pub open spec fn kw_or() -> Seq<u8> {
    seq!['O' as u8, 'R' as u8]
}

/// `OR`, as a fresh byte vector.
pub fn kw_or_vec() -> (v: Vec<u8>)
    ensures
        v@ == kw_or(),
{
    let v: Vec<u8> = vec!['O' as u8, 'R' as u8];
    proof {
        assert(v@ =~= kw_or());
    }
    v
}

/// `NOT`
pub open spec fn kw_not() -> Seq<u8> {
    seq!['N' as u8, 'O' as u8, 'T' as u8]
}

/// `NOT`, as a fresh byte vector.
pub fn kw_not_vec() -> (v: Vec<u8>)
    ensures
        v@ == kw_not(),
{
    let v: Vec<u8> = vec!['N' as u8, 'O' as u8, 'T' as u8];
    proof {
        assert(v@ =~= kw_not());
    }
    v
}

/// `GT`
pub open spec fn kw_gt() -> Seq<u8> {
    seq!['G' as u8, 'T' as u8]
}

/// `GT`, as a fresh byte vector.
pub fn kw_gt_vec() -> (v: Vec<u8>)
    ensures
        v@ == kw_gt(),
{
    let v: Vec<u8> = vec!['G' as u8, 'T' as u8];
    proof {
        assert(v@ =~= kw_gt());
    }
    v
}

/// `EQ`
pub open spec fn kw_eq() -> Seq<u8> {
    seq!['E' as u8, 'Q' as u8]
}

/// `EQ`, as a fresh byte vector.
pub fn kw_eq_vec() -> (v: Vec<u8>)
    ensures
        v@ == kw_eq(),
{
    let v: Vec<u8> = vec!['E' as u8, 'Q' as u8];
    proof {
        assert(v@ =~= kw_eq());
    }
    v
}

/// `IF`
pub open spec fn kw_if() -> Seq<u8> {
    seq!['I' as u8, 'F' as u8]
}

/// `IF`, as a fresh byte vector.
pub fn kw_if_vec() -> (v: Vec<u8>)
    ensures
        v@ == kw_if(),
{
    let v: Vec<u8> = vec!['I' as u8, 'F' as u8];
    proof {
        assert(v@ =~= kw_if());
    }
    v
}

/// `true`
pub open spec fn kw_true() -> Seq<u8> {
    seq!['t' as u8, 'r' as u8, 'u' as u8, 'e' as u8]
}

/// `true`, as a fresh byte vector.
pub fn kw_true_vec() -> (v: Vec<u8>)
    ensures
        v@ == kw_true(),
{
    let v: Vec<u8> = vec!['t' as u8, 'r' as u8, 'u' as u8, 'e' as u8];
    proof {
        assert(v@ =~= kw_true());
    }
    v
}

/// `false`
pub open spec fn kw_false() -> Seq<u8> {
    seq!['f' as u8, 'a' as u8, 'l' as u8, 's' as u8, 'e' as u8]
}

/// `false`, as a fresh byte vector.
pub fn kw_false_vec() -> (v: Vec<u8>)
    ensures
        v@ == kw_false(),
{
    let v: Vec<u8> = vec!['f' as u8, 'a' as u8, 'l' as u8, 's' as u8, 'e' as u8];
    proof {
        assert(v@ =~= kw_false());
    }
    v
}

/// `TRUE`
pub open spec fn kw_true_uc() -> Seq<u8> {
    seq!['T' as u8, 'R' as u8, 'U' as u8, 'E' as u8]
}

/// `TRUE`, as a fresh byte vector.
pub fn kw_true_uc_vec() -> (v: Vec<u8>)
    ensures
        v@ == kw_true_uc(),
{
    let v: Vec<u8> = vec!['T' as u8, 'R' as u8, 'U' as u8, 'E' as u8];
    proof {
        assert(v@ =~= kw_true_uc());
    }
    v
}

/// `FALSE`
pub open spec fn kw_false_uc() -> Seq<u8> {
    seq!['F' as u8, 'A' as u8, 'L' as u8, 'S' as u8, 'E' as u8]
}

/// `FALSE`, as a fresh byte vector.
pub fn kw_false_uc_vec() -> (v: Vec<u8>)
    ensures
        v@ == kw_false_uc(),
{
    let v: Vec<u8> = vec!['F' as u8, 'A' as u8, 'L' as u8, 'S' as u8, 'E' as u8];
    proof {
        assert(v@ =~= kw_false_uc());
    }
    v
}

/// `DATA`
pub open spec fn kw_data() -> Seq<u8> {
    seq!['D' as u8, 'A' as u8, 'T' as u8, 'A' as u8]
}

/// `DATA`, as a fresh byte vector.
pub fn kw_data_vec() -> (v: Vec<u8>)
    ensures
        v@ == kw_data(),
{
    let v: Vec<u8> = vec!['D' as u8, 'A' as u8, 'T' as u8, 'A' as u8];
    proof {
        assert(v@ =~= kw_data());
    }
    v
}

/// `SHEETS`
pub open spec fn kw_sheets() -> Seq<u8> {
    seq!['S' as u8, 'H' as u8, 'E' as u8, 'E' as u8, 'T' as u8, 'S' as u8]
}

/// `SHEETS`, as a fresh byte vector.
pub fn kw_sheets_vec() -> (v: Vec<u8>)
    ensures
        v@ == kw_sheets(),
{
    let v: Vec<u8> = vec!['S' as u8, 'H' as u8, 'E' as u8, 'E' as u8, 'T' as u8, 'S' as u8];
    proof {
        assert(v@ =~= kw_sheets());
    }
    v
}

/// `ID`
pub open spec fn kw_id() -> Seq<u8> {
    seq!['I' as u8, 'D' as u8]
}

/// `ID`, as a fresh byte vector.
pub fn kw_id_vec() -> (v: Vec<u8>)
    ensures
        v@ == kw_id(),
{
    let v: Vec<u8> = vec!['I' as u8, 'D' as u8];
    proof {
        assert(v@ =~= kw_id());
    }
    v
}

/// `SUBMISSIONURL`
pub open spec fn kw_submission_url() -> Seq<u8> {
    seq!['S' as u8, 'U' as u8, 'B' as u8, 'M' as u8, 'I' as u8, 'S' as u8, 'S' as u8, 'I' as u8, 'O' as u8, 'N' as u8, 'U' as u8, 'R' as u8, 'L' as u8]
}

/// `SUBMISSIONURL`, as a fresh byte vector.
pub fn kw_submission_url_vec() -> (v: Vec<u8>)
    ensures
        v@ == kw_submission_url(),
{
    let v: Vec<u8> = vec!['S' as u8, 'U' as u8, 'B' as u8, 'M' as u8, 'I' as u8, 'S' as u8, 'S' as u8, 'I' as u8, 'O' as u8, 'N' as u8, 'U' as u8, 'R' as u8, 'L' as u8];
    proof {
        assert(v@ =~= kw_submission_url());
    }
    v
}

/// `END_SUM`
pub open spec fn end_sum() -> Seq<u8> {
    seq!['E' as u8, 'N' as u8, 'D' as u8, '_' as u8, 'S' as u8, 'U' as u8, 'M' as u8]
}

/// `END_SUM`, as a fresh byte vector.
pub fn end_sum_vec() -> (v: Vec<u8>)
    ensures
        v@ == end_sum(),
{
    let v: Vec<u8> = vec!['E' as u8, 'N' as u8, 'D' as u8, '_' as u8, 'S' as u8, 'U' as u8, 'M' as u8];
    proof {
        assert(v@ =~= end_sum());
    }
    v
}

/// `END_MUL`
pub open spec fn end_mul() -> Seq<u8> {
    seq!['E' as u8, 'N' as u8, 'D' as u8, '_' as u8, 'M' as u8, 'U' as u8, 'L' as u8]
}

/// `END_MUL`, as a fresh byte vector.
pub fn end_mul_vec() -> (v: Vec<u8>)
    ensures
        v@ == end_mul(),
{
    let v: Vec<u8> = vec!['E' as u8, 'N' as u8, 'D' as u8, '_' as u8, 'M' as u8, 'U' as u8, 'L' as u8];
    proof {
        assert(v@ =~= end_mul());
    }
    v
}

/// `END_DIV`
pub open spec fn end_div() -> Seq<u8> {
    seq!['E' as u8, 'N' as u8, 'D' as u8, '_' as u8, 'D' as u8, 'I' as u8, 'V' as u8]
}

/// `END_DIV`, as a fresh byte vector.
pub fn end_div_vec() -> (v: Vec<u8>)
    ensures
        v@ == end_div(),
{
    let v: Vec<u8> = vec!['E' as u8, 'N' as u8, 'D' as u8, '_' as u8, 'D' as u8, 'I' as u8, 'V' as u8];
    proof {
        assert(v@ =~= end_div());
    }
    v
}

/// `END_CONCAT`
pub open spec fn end_concat() -> Seq<u8> {
    seq!['E' as u8, 'N' as u8, 'D' as u8, '_' as u8, 'C' as u8, 'O' as u8, 'N' as u8, 'C' as u8, 'A' as u8, 'T' as u8]
}

/// `END_CONCAT`, as a fresh byte vector.
pub fn end_concat_vec() -> (v: Vec<u8>)
    ensures
        v@ == end_concat(),
{
    let v: Vec<u8> = vec!['E' as u8, 'N' as u8, 'D' as u8, '_' as u8, 'C' as u8, 'O' as u8, 'N' as u8, 'C' as u8, 'A' as u8, 'T' as u8];
    proof {
        assert(v@ =~= end_concat());
    }
    v
}

/// `END_AND`
pub open spec fn end_and() -> Seq<u8> {
    seq!['E' as u8, 'N' as u8, 'D' as u8, '_' as u8, 'A' as u8, 'N' as u8, 'D' as u8]
}

/// `END_AND`, as a fresh byte vector.
pub fn end_and_vec() -> (v: Vec<u8>)
    ensures
        v@ == end_and(),
{
    let v: Vec<u8> = vec!['E' as u8, 'N' as u8, 'D' as u8, '_' as u8, 'A' as u8, 'N' as u8, 'D' as u8];
    proof {
        assert(v@ =~= end_and());
    }
    v
}

/// `END_OR`
pub open spec fn end_or() -> Seq<u8> {
    seq!['E' as u8, 'N' as u8, 'D' as u8, '_' as u8, 'O' as u8, 'R' as u8]
}

/// `END_OR`, as a fresh byte vector.
pub fn end_or_vec() -> (v: Vec<u8>)
    ensures
        v@ == end_or(),
{
    let v: Vec<u8> = vec!['E' as u8, 'N' as u8, 'D' as u8, '_' as u8, 'O' as u8, 'R' as u8];
    proof {
        assert(v@ =~= end_or());
    }
    v
}

/// `END_NOT`
pub open spec fn end_not() -> Seq<u8> {
    seq!['E' as u8, 'N' as u8, 'D' as u8, '_' as u8, 'N' as u8, 'O' as u8, 'T' as u8]
}

/// `END_NOT`, as a fresh byte vector.
pub fn end_not_vec() -> (v: Vec<u8>)
    ensures
        v@ == end_not(),
{
    let v: Vec<u8> = vec!['E' as u8, 'N' as u8, 'D' as u8, '_' as u8, 'N' as u8, 'O' as u8, 'T' as u8];
    proof {
        assert(v@ =~= end_not());
    }
    v
}

/// `END_GT`
pub open spec fn end_gt() -> Seq<u8> {
    seq!['E' as u8, 'N' as u8, 'D' as u8, '_' as u8, 'G' as u8, 'T' as u8]
}

/// `END_GT`, as a fresh byte vector.
pub fn end_gt_vec() -> (v: Vec<u8>)
    ensures
        v@ == end_gt(),
{
    let v: Vec<u8> = vec!['E' as u8, 'N' as u8, 'D' as u8, '_' as u8, 'G' as u8, 'T' as u8];
    proof {
        assert(v@ =~= end_gt());
    }
    v
}

/// `END_EQ`
pub open spec fn end_eq() -> Seq<u8> {
    seq!['E' as u8, 'N' as u8, 'D' as u8, '_' as u8, 'E' as u8, 'Q' as u8]
}

/// `END_EQ`, as a fresh byte vector.
pub fn end_eq_vec() -> (v: Vec<u8>)
    ensures
        v@ == end_eq(),
{
    let v: Vec<u8> = vec!['E' as u8, 'N' as u8, 'D' as u8, '_' as u8, 'E' as u8, 'Q' as u8];
    proof {
        assert(v@ =~= end_eq());
    }
    v
}

/// `END_IF`
pub open spec fn end_if() -> Seq<u8> {
    seq!['E' as u8, 'N' as u8, 'D' as u8, '_' as u8, 'I' as u8, 'F' as u8]
}

/// `END_IF`, as a fresh byte vector.
pub fn end_if_vec() -> (v: Vec<u8>)
    ensures
        v@ == end_if(),
{
    let v: Vec<u8> = vec!['E' as u8, 'N' as u8, 'D' as u8, '_' as u8, 'I' as u8, 'F' as u8];
    proof {
        assert(v@ =~= end_if());
    }
    v
}

/// `0000`
pub open spec fn filler() -> Seq<u8> {
    seq!['0' as u8, '0' as u8, '0' as u8, '0' as u8]
}

/// `0000`, as a fresh byte vector.
pub fn filler_vec() -> (v: Vec<u8>)
    ensures
        v@ == filler(),
{
    let v: Vec<u8> = vec!['0' as u8, '0' as u8, '0' as u8, '0' as u8];
    proof {
        assert(v@ =~= filler());
    }
    v
}

/// `ERROR: type does not match`
pub open spec fn type_err() -> Seq<u8> {
    seq!['E' as u8, 'R' as u8, 'R' as u8, 'O' as u8, 'R' as u8, ':' as u8, ' ' as u8, 't' as u8, 'y' as u8, 'p' as u8, 'e' as u8, ' ' as u8, 'd' as u8, 'o' as u8, 'e' as u8, 's' as u8, ' ' as u8, 'n' as u8, 'o' as u8, 't' as u8, ' ' as u8, 'm' as u8, 'a' as u8, 't' as u8, 'c' as u8, 'h' as u8]
}

/// `ERROR: type does not match`, as a fresh byte vector.
pub fn type_err_vec() -> (v: Vec<u8>)
    ensures
        v@ == type_err(),
{
    let v: Vec<u8> = vec!['E' as u8, 'R' as u8, 'R' as u8, 'O' as u8, 'R' as u8, ':' as u8, ' ' as u8, 't' as u8, 'y' as u8, 'p' as u8, 'e' as u8, ' ' as u8, 'd' as u8, 'o' as u8, 'e' as u8, 's' as u8, ' ' as u8, 'n' as u8, 'o' as u8, 't' as u8, ' ' as u8, 'm' as u8, 'a' as u8, 't' as u8, 'c' as u8, 'h' as u8];
    proof {
        assert(v@ =~= type_err());
    }
    v
}

/// `data`
pub open spec fn data_label() -> Seq<u8> {
    seq!['d' as u8, 'a' as u8, 't' as u8, 'a' as u8]
}

/// `data`, as a fresh byte vector.
pub fn data_label_vec() -> (v: Vec<u8>)
    ensures
        v@ == data_label(),
{
    let v: Vec<u8> = vec!['d' as u8, 'a' as u8, 't' as u8, 'a' as u8];
    proof {
        assert(v@ =~= data_label());
    }
    v
}

} // verus!
