//! The two lexers. The formula lexer tokenizes one embedded formula
//! expression: parentheses, commas, numeric and string and boolean
//! literals, operator keywords, and cell-address notation. The document
//! lexer tokenizes the outer document: structural punctuation, keyword
//! and string and numeric literals; a quoted value opening with an
//! equals marker is an embedded formula, which is handed to the formula
//! lexer and whose tokens are spliced into the outer stream.
//!
//! Unrecognized input is skipped, never a hard failure; an unterminated
//! string ends that token's lexing without ending the pass. The
//! document lexer closes its stream with an end-of-stream marker.

use vstd::prelude::*;
use crate::token::{Token, TokenKind, copy_token};
use crate::text::{is_digit, is_upper, is_alpha, is_alnum, upper_seq, quote_byte};
use crate::words::{kw_sum, kw_multiply, kw_divide, kw_concat, kw_and, kw_or, kw_not, kw_gt,
    kw_eq, kw_if, kw_true, kw_false, kw_data, kw_sheets, kw_id, kw_submission_url, kw_true_uc,
    kw_false_uc, kw_sum_vec, kw_multiply_vec, kw_divide_vec, kw_concat_vec, kw_and_vec,
    kw_or_vec, kw_not_vec, kw_gt_vec, kw_eq_vec, kw_if_vec, kw_true_uc_vec, kw_false_uc_vec,
    kw_data_vec, kw_sheets_vec, kw_id_vec, kw_submission_url_vec};
use crate::text::{matches_word, subvec};

verus! {

/// The kind/text views of a token sequence.
pub open spec fn token_views(ts: Seq<Token>) -> Seq<(TokenKind, Seq<u8>)> {
    Seq::new(ts.len(), |i: int| (ts[i].kind, ts[i].literal@))
}

/// Whether a byte string holds cell-address notation anywhere: an
/// upper-case letter followed directly by a digit.
pub open spec fn has_cell_ref_spec(s: Seq<u8>) -> bool {
    exists|i: int| 0 <= i && i + 1 < s.len() && is_upper(s[i]) && is_digit(#[trigger] s[i + 1])
}

/// The end of the digit run starting at `i`.
pub open spec fn digit_run_end(s: Seq<u8>, i: int) -> int
    decreases s.len() - i,
{
    if 0 <= i < s.len() && is_digit(s[i]) {
        digit_run_end(s, i + 1)
    } else {
        i
    }
}

pub proof fn lemma_digit_run_bounds(s: Seq<u8>, i: int)
    requires
        0 <= i <= s.len(),
    ensures
        i <= digit_run_end(s, i) <= s.len(),
    decreases s.len() - i,
{
    if i < s.len() && is_digit(s[i]) {
        lemma_digit_run_bounds(s, i + 1);
    }
}

/// The end of the alphanumeric run starting at `i`.
pub open spec fn alnum_run_end(s: Seq<u8>, i: int) -> int
    decreases s.len() - i,
{
    if 0 <= i < s.len() && is_alnum(s[i]) {
        alnum_run_end(s, i + 1)
    } else {
        i
    }
}

pub proof fn lemma_alnum_run_bounds(s: Seq<u8>, i: int)
    requires
        0 <= i <= s.len(),
    ensures
        i <= alnum_run_end(s, i) <= s.len(),
    decreases s.len() - i,
{
    if i < s.len() && is_alnum(s[i]) {
        lemma_alnum_run_bounds(s, i + 1);
    }
}

/// Whether a byte may continue a document identifier.
pub open spec fn is_word_byte(c: u8) -> bool {
    is_alnum(c) || c == '_' as u8
}

/// The end of the identifier run starting at `i`, document style.
pub open spec fn word_run_end(s: Seq<u8>, i: int) -> int
    decreases s.len() - i,
{
    if 0 <= i < s.len() && is_word_byte(s[i]) {
        word_run_end(s, i + 1)
    } else {
        i
    }
}

pub proof fn lemma_word_run_bounds(s: Seq<u8>, i: int)
    requires
        0 <= i <= s.len(),
    ensures
        i <= word_run_end(s, i) <= s.len(),
    decreases s.len() - i,
{
    if i < s.len() && is_word_byte(s[i]) {
        lemma_word_run_bounds(s, i + 1);
    }
}

/// The first formula-string delimiter or newline at or after `k`: a
/// quote, a backslash-quote pair, or a newline; the length when none
/// remains.
pub open spec fn f_str_end(s: Seq<u8>, k: int) -> int
    decreases s.len() - k,
{
    if !(0 <= k < s.len()) {
        s.len() as int
    } else if s[k] == quote_byte() {
        k
    } else if s[k] == '\\' as u8 && k + 1 < s.len() && s[k + 1] == quote_byte() {
        k
    } else if s[k] == '\n' as u8 {
        k
    } else {
        f_str_end(s, k + 1)
    }
}

pub proof fn lemma_f_str_end_bounds(s: Seq<u8>, k: int)
    requires
        0 <= k <= s.len(),
    ensures
        k <= f_str_end(s, k) <= s.len(),
        f_str_end(s, k) < s.len() ==> (s[f_str_end(s, k)] == quote_byte() || (s[f_str_end(s, k)]
            == '\\' as u8 && f_str_end(s, k) + 1 < s.len() && s[f_str_end(s, k) + 1]
            == quote_byte()) || s[f_str_end(s, k)] == '\n' as u8),
    decreases s.len() - k,
{
    if k < s.len() && s[k] != quote_byte() && !(s[k] == '\\' as u8 && k + 1 < s.len() && s[k + 1]
        == quote_byte()) && s[k] != '\n' as u8 {
        lemma_f_str_end_bounds(s, k + 1);
    }
}

/// The first plain document-string boundary at or after `k`: a quote,
/// a backslash, or a newline; the length when none remains.
pub open spec fn d_str_end(s: Seq<u8>, k: int) -> int
    decreases s.len() - k,
{
    if !(0 <= k < s.len()) {
        s.len() as int
    } else if s[k] == quote_byte() || s[k] == '\\' as u8 || s[k] == '\n' as u8 {
        k
    } else {
        d_str_end(s, k + 1)
    }
}

pub proof fn lemma_d_str_end_bounds(s: Seq<u8>, k: int)
    requires
        0 <= k <= s.len(),
    ensures
        k <= d_str_end(s, k) <= s.len(),
    decreases s.len() - k,
{
    if k < s.len() && !(s[k] == quote_byte() || s[k] == '\\' as u8 || s[k] == '\n' as u8) {
        lemma_d_str_end_bounds(s, k + 1);
    }
}

/// The closing quote of an embedded formula string at or after `k`:
/// backslash-quote pairs are part of the content and are passed over;
/// a newline or the end of input ends the scan.
pub open spec fn f_embed_end(s: Seq<u8>, k: int) -> int
    decreases s.len() - k,
{
    if !(0 <= k < s.len()) {
        s.len() as int
    } else if s[k] == '\\' as u8 && k + 1 < s.len() && s[k + 1] == quote_byte() {
        f_embed_end(s, k + 2)
    } else if s[k] == quote_byte() {
        k
    } else if s[k] == '\n' as u8 {
        k
    } else {
        f_embed_end(s, k + 1)
    }
}

pub proof fn lemma_f_embed_end_bounds(s: Seq<u8>, k: int)
    requires
        0 <= k <= s.len(),
    ensures
        k <= f_embed_end(s, k) <= s.len(),
    decreases s.len() - k,
{
    if 0 <= k < s.len() {
        if s[k] == '\\' as u8 && k + 1 < s.len() && s[k + 1] == quote_byte() {
            lemma_f_embed_end_bounds(s, k + 2);
        } else if s[k] != quote_byte() && s[k] != '\n' as u8 {
            lemma_f_embed_end_bounds(s, k + 1);
        }
    }
}

/// Classifies one formula identifier: an operator keyword
/// (case-insensitive), a boolean literal, cell-address notation, or
/// nothing (the identifier is skipped).
pub open spec fn formula_ident_token(text: Seq<u8>) -> Option<(TokenKind, Seq<u8>)> {
    let u = upper_seq(text);
    if u == kw_if() {
        Some((TokenKind::Operation_If, text))
    } else if u == kw_gt() {
        Some((TokenKind::Operation_Gt, text))
    } else if u == kw_eq() {
        Some((TokenKind::Operation_Eq, text))
    } else if u == kw_sum() {
        Some((TokenKind::Operation_Sum, text))
    } else if u == kw_multiply() {
        Some((TokenKind::Operation_Multiply, text))
    } else if u == kw_concat() {
        Some((TokenKind::Operation_Concat, text))
    } else if u == kw_not() {
        Some((TokenKind::Operation_Not, text))
    } else if u == kw_and() {
        Some((TokenKind::Operation_And, text))
    } else if u == kw_or() {
        Some((TokenKind::Operation_Or, text))
    } else if u == kw_divide() {
        Some((TokenKind::Operation_Divide, text))
    } else if u == upper_seq(kw_true()) || u == upper_seq(kw_false()) {
        Some((TokenKind::Bool, text))
    } else if has_cell_ref_spec(text) {
        Some((TokenKind::Notation, text))
    } else {
        None
    }
}

/// Classifies one document identifier: a structural keyword
/// (case-insensitive), a boolean literal, or a plain identifier.
pub open spec fn doc_ident_token(text: Seq<u8>) -> (TokenKind, Seq<u8>) {
    let u = upper_seq(text);
    if u == kw_data() {
        (TokenKind::Data, text)
    } else if u == kw_sheets() {
        (TokenKind::Sheets, text)
    } else if u == kw_id() {
        (TokenKind::Id, text)
    } else if u == kw_submission_url() {
        (TokenKind::Submission_url, text)
    } else if u == upper_seq(kw_true()) || u == upper_seq(kw_false()) {
        (TokenKind::Bool, text)
    } else {
        (TokenKind::Identifier, text)
    }
}

/// The formula tokens of `s` from position `i` on.
pub open spec fn lex_formula_from(s: Seq<u8>, i: int) -> Seq<(TokenKind, Seq<u8>)>
    decreases s.len() - i,
{
    if !(0 <= i < s.len()) {
        Seq::empty()
    } else {
        let c = s[i];
        if is_digit(c) {
            proof {
                lemma_digit_run_bounds(s, i + 1);
            }
            let j = digit_run_end(s, i + 1);
            if j < s.len() && s[j] == '.' as u8 {
                proof {
                    lemma_digit_run_bounds(s, j + 1);
                }
                let j2 = digit_run_end(s, j + 1);
                seq![(TokenKind::Double, s.subrange(i, j2))] + lex_formula_from(s, j2)
            } else {
                seq![(TokenKind::Int, s.subrange(i, j))] + lex_formula_from(s, j)
            }
        } else if c == '(' as u8 {
            seq![(TokenKind::Op_Paren_o, Seq::<u8>::empty())] + lex_formula_from(s, i + 1)
        } else if c == ')' as u8 {
            seq![(TokenKind::Op_Paren_c, Seq::<u8>::empty())] + lex_formula_from(s, i + 1)
        } else if c == '=' as u8 {
            seq![(TokenKind::Assign, Seq::<u8>::empty())] + lex_formula_from(s, i + 1)
        } else if c == ',' as u8 {
            seq![(TokenKind::Comma, Seq::<u8>::empty())] + lex_formula_from(s, i + 1)
        } else if c == quote_byte() || (c == '\\' as u8 && i + 1 < s.len() && s[i + 1]
            == quote_byte()) {
            let c0 = if c == quote_byte() {
                i + 1
            } else {
                i + 2
            };
            proof {
                lemma_f_str_end_bounds(s, c0);
            }
            let e = f_str_end(s, c0);
            if e < s.len() && s[e] == quote_byte() {
                seq![
                    (TokenKind::Str, seq![quote_byte()] + s.subrange(c0, e) + seq![quote_byte()]),
                ] + lex_formula_from(s, e + 1)
            } else if e < s.len() && s[e] == '\\' as u8 {
                seq![
                    (TokenKind::Str, seq![quote_byte()] + s.subrange(c0, e) + seq![quote_byte()]),
                ] + lex_formula_from(s, e + 2)
            } else if e < s.len() {
                lex_formula_from(s, e + 1)
            } else {
                Seq::empty()
            }
        } else if is_alpha(c) {
            proof {
                lemma_alnum_run_bounds(s, i + 1);
            }
            let j = alnum_run_end(s, i + 1);
            (match formula_ident_token(s.subrange(i, j)) {
                Some(kv) => seq![kv],
                None => Seq::empty(),
            }) + lex_formula_from(s, j)
        } else {
            lex_formula_from(s, i + 1)
        }
    }
}

/// The document tokens of `s` from position `i` on, without the final
/// end-of-stream marker.
pub open spec fn lex_doc_from(s: Seq<u8>, i: int) -> Seq<(TokenKind, Seq<u8>)>
    decreases s.len() - i,
{
    if !(0 <= i < s.len()) {
        Seq::empty()
    } else {
        let c = s[i];
        if is_digit(c) {
            proof {
                lemma_digit_run_bounds(s, i + 1);
            }
            let j = digit_run_end(s, i + 1);
            if j < s.len() && s[j] == '.' as u8 {
                proof {
                    lemma_digit_run_bounds(s, j + 1);
                }
                let j2 = digit_run_end(s, j + 1);
                seq![(TokenKind::Double, s.subrange(i, j2))] + lex_doc_from(s, j2)
            } else {
                seq![(TokenKind::Int, s.subrange(i, j))] + lex_doc_from(s, j)
            }
        } else if c == '=' as u8 {
            seq![(TokenKind::Assign, Seq::<u8>::empty())] + lex_doc_from(s, i + 1)
        } else if c == '(' as u8 {
            seq![(TokenKind::Op_Paren_o, Seq::<u8>::empty())] + lex_doc_from(s, i + 1)
        } else if c == ')' as u8 {
            seq![(TokenKind::Op_Paren_c, Seq::<u8>::empty())] + lex_doc_from(s, i + 1)
        } else if c == '[' as u8 {
            seq![(TokenKind::Arr_o, Seq::<u8>::empty())] + lex_doc_from(s, i + 1)
        } else if c == ']' as u8 {
            seq![(TokenKind::Arr_c, Seq::<u8>::empty())] + lex_doc_from(s, i + 1)
        } else if c == '{' as u8 {
            seq![(TokenKind::OP_Brace_o, Seq::<u8>::empty())] + lex_doc_from(s, i + 1)
        } else if c == '}' as u8 {
            seq![(TokenKind::OP_Brace_c, Seq::<u8>::empty())] + lex_doc_from(s, i + 1)
        } else if c == '.' as u8 {
            seq![(TokenKind::Colon, Seq::<u8>::empty())] + lex_doc_from(s, i + 1)
        } else if c == ',' as u8 {
            seq![(TokenKind::Comma, Seq::<u8>::empty())] + lex_doc_from(s, i + 1)
        } else if c == ';' as u8 {
            seq![(TokenKind::Semicolon, Seq::<u8>::empty())] + lex_doc_from(s, i + 1)
        } else if c == ':' as u8 {
            seq![(TokenKind::Punc, Seq::<u8>::empty())] + lex_doc_from(s, i + 1)
        } else if c == quote_byte() {
            if i + 1 < s.len() && s[i + 1] == '=' as u8 {
                let c0 = i + 2;
                proof {
                    lemma_f_embed_end_bounds(s, c0);
                }
                let e = f_embed_end(s, c0);
                if e < s.len() && s[e] == quote_byte() {
                    lex_formula_from(s.subrange(c0, e), 0) + lex_doc_from(s, e + 1)
                } else if e < s.len() {
                    lex_doc_from(s, e + 1)
                } else {
                    Seq::empty()
                }
            } else {
                let c0 = i + 1;
                proof {
                    lemma_d_str_end_bounds(s, c0);
                }
                let e = d_str_end(s, c0);
                if e < s.len() && s[e] == quote_byte() {
                    seq![(TokenKind::Str, s.subrange(c0, e))] + lex_doc_from(s, e + 1)
                } else if e < s.len() {
                    lex_doc_from(s, e + 1)
                } else {
                    Seq::empty()
                }
            }
        } else if is_alpha(c) {
            proof {
                lemma_word_run_bounds(s, i + 1);
            }
            let j = word_run_end(s, i + 1);
            seq![doc_ident_token(s.subrange(i, j))] + lex_doc_from(s, j)
        } else {
            lex_doc_from(s, i + 1)
        }
    }
}

/// The whole document token stream: the document tokens followed by
/// the end-of-stream marker.
pub open spec fn lex_doc_spec(s: Seq<u8>) -> Seq<(TokenKind, Seq<u8>)> {
    lex_doc_from(s, 0).push((TokenKind::Eof, Seq::<u8>::empty()))
}

/// Relies on `regex::bytes::Regex`: `new` cannot fail on this fixed,
/// valid pattern, and `is_match` returns true if and only if the
/// pattern matches somewhere in the haystack; `[A-Z][0-9]+` matches
/// exactly where an upper-case ASCII letter is directly followed by an
/// ASCII digit.
#[verifier::external_body]
fn has_cell_ref(s: &Vec<u8>) -> (r: bool)
    ensures
        r == has_cell_ref_spec(s@),
{
    let re = regex::bytes::Regex::new("[A-Z][0-9]+").unwrap();
    re.is_match(s)
}

fn digit_run_end_e(s: &Vec<u8>, i: usize) -> (r: usize)
    requires
        i <= s@.len(),
    ensures
        r as int == digit_run_end(s@, i as int),
        i <= r <= s@.len(),
    decreases s@.len() - i,
{
    if i < s.len() && s[i] >= '0' as u8 && s[i] <= '9' as u8 {
        digit_run_end_e(s, i + 1)
    } else {
        i
    }
}

fn alnum_run_end_e(s: &Vec<u8>, i: usize) -> (r: usize)
    requires
        i <= s@.len(),
    ensures
        r as int == alnum_run_end(s@, i as int),
        i <= r <= s@.len(),
    decreases s@.len() - i,
{
    if i < s.len() && (s[i] >= '0' as u8 && s[i] <= '9' as u8 || s[i] >= 'a' as u8 && s[i]
        <= 'z' as u8 || s[i] >= 'A' as u8 && s[i] <= 'Z' as u8) {
        alnum_run_end_e(s, i + 1)
    } else {
        i
    }
}

fn word_run_end_e(s: &Vec<u8>, i: usize) -> (r: usize)
    requires
        i <= s@.len(),
    ensures
        r as int == word_run_end(s@, i as int),
        i <= r <= s@.len(),
    decreases s@.len() - i,
{
    if i < s.len() && (s[i] >= '0' as u8 && s[i] <= '9' as u8 || s[i] >= 'a' as u8 && s[i]
        <= 'z' as u8 || s[i] >= 'A' as u8 && s[i] <= 'Z' as u8 || s[i] == '_' as u8) {
        word_run_end_e(s, i + 1)
    } else {
        i
    }
}

fn f_str_end_e(s: &Vec<u8>, k: usize) -> (r: usize)
    requires
        k <= s@.len(),
    ensures
        r as int == f_str_end(s@, k as int),
        k <= r <= s@.len(),
    decreases s@.len() - k,
{
    if k >= s.len() {
        s.len()
    } else if s[k] == '"' as u8 {
        k
    } else if s[k] == '\\' as u8 && k + 1 < s.len() && s[k + 1] == '"' as u8 {
        k
    } else if s[k] == '\n' as u8 {
        k
    } else {
        f_str_end_e(s, k + 1)
    }
}

fn d_str_end_e(s: &Vec<u8>, k: usize) -> (r: usize)
    requires
        k <= s@.len(),
    ensures
        r as int == d_str_end(s@, k as int),
        k <= r <= s@.len(),
    decreases s@.len() - k,
{
    if k >= s.len() {
        s.len()
    } else if s[k] == '"' as u8 || s[k] == '\\' as u8 || s[k] == '\n' as u8 {
        k
    } else {
        d_str_end_e(s, k + 1)
    }
}

fn f_embed_end_e(s: &Vec<u8>, k: usize) -> (r: usize)
    requires
        k <= s@.len(),
    ensures
        r as int == f_embed_end(s@, k as int),
        k <= r <= s@.len(),
    decreases s@.len() - k,
{
    if k >= s.len() {
        s.len()
    } else if s[k] == '\\' as u8 && k + 1 < s.len() && s[k + 1] == '"' as u8 {
        f_embed_end_e(s, k + 2)
    } else if s[k] == '"' as u8 {
        k
    } else if s[k] == '\n' as u8 {
        k
    } else {
        f_embed_end_e(s, k + 1)
    }
}

/// Appends a token, extending the stream's views by its view.
fn push_token(out: &mut Vec<Token>, k: TokenKind, text: Vec<u8>)
    ensures
        token_views(final(out)@) == token_views(old(out)@).push((k, text@)),
{
    let ghost pre = out@;
    let t = Token::new(k, text);
    let ghost tv = t;
    out.push(t);
    proof {
        assert(out@ == pre.push(tv));
        assert(token_views(pre.push(tv)) =~= token_views(pre).push((tv.kind, tv.literal@)));
    }
}

/// Appends copies of all tokens of `src`.
fn append_tokens(dst: &mut Vec<Token>, src: &Vec<Token>)
    ensures
        token_views(final(dst)@) == token_views(old(dst)@) + token_views(src@),
{
    let mut i: usize = 0;
    proof {
        assert(token_views(dst@) =~= token_views(old(dst)@) + token_views(src@).take(0));
    }
    while i < src.len()
        invariant
            0 <= i <= src@.len(),
            token_views(dst@) == token_views(old(dst)@) + token_views(src@).take(i as int),
        decreases src.len() - i,
    {
        let ghost pre = dst@;
        let t = copy_token(&src[i]);
        let ghost tv = t;
        dst.push(t);
        proof {
            assert(dst@ == pre.push(tv));
            assert(token_views(pre.push(tv)) =~= token_views(pre).push((tv.kind, tv.literal@)));
            assert(token_views(src@).take(i + 1) =~= token_views(src@).take(i as int).push(
                (src@[i as int].kind, src@[i as int].literal@),
            ));
            assert(token_views(dst@) =~= token_views(old(dst)@) + token_views(src@).take(i + 1));
        }
        i = i + 1;
    }
    proof {
        assert(token_views(src@).take(src@.len() as int) =~= token_views(src@));
    }
}

/// Classifies one formula identifier into its token, if it makes one.
fn classify_formula_ident(text: Vec<u8>) -> (r: Option<Token>)
    ensures
        match r {
            Some(t) => formula_ident_token(text@) == Some((t.kind, t.literal@)),
            None => formula_ident_token(text@) is None,
        },
{
    let w = kw_if_vec();
    if matches_word(&text, &w) {
        return Some(Token::new(TokenKind::Operation_If, text));
    }
    let w = kw_gt_vec();
    if matches_word(&text, &w) {
        return Some(Token::new(TokenKind::Operation_Gt, text));
    }
    let w = kw_eq_vec();
    if matches_word(&text, &w) {
        return Some(Token::new(TokenKind::Operation_Eq, text));
    }
    let w = kw_sum_vec();
    if matches_word(&text, &w) {
        return Some(Token::new(TokenKind::Operation_Sum, text));
    }
    let w = kw_multiply_vec();
    if matches_word(&text, &w) {
        return Some(Token::new(TokenKind::Operation_Multiply, text));
    }
    let w = kw_concat_vec();
    if matches_word(&text, &w) {
        return Some(Token::new(TokenKind::Operation_Concat, text));
    }
    let w = kw_not_vec();
    if matches_word(&text, &w) {
        return Some(Token::new(TokenKind::Operation_Not, text));
    }
    let w = kw_and_vec();
    if matches_word(&text, &w) {
        return Some(Token::new(TokenKind::Operation_And, text));
    }
    let w = kw_or_vec();
    if matches_word(&text, &w) {
        return Some(Token::new(TokenKind::Operation_Or, text));
    }
    let w = kw_divide_vec();
    if matches_word(&text, &w) {
        return Some(Token::new(TokenKind::Operation_Divide, text));
    }
    let w_t = kw_true_uc_vec();
    let w_f = kw_false_uc_vec();
    proof {
        assert(kw_true_uc() =~= upper_seq(kw_true()));
        assert(kw_false_uc() =~= upper_seq(kw_false()));
    }
    if matches_word(&text, &w_t) || matches_word(&text, &w_f) {
        return Some(Token::new(TokenKind::Bool, text));
    }
    if has_cell_ref(&text) {
        return Some(Token::new(TokenKind::Notation, text));
    }
    None
}

/// Classifies one document identifier into its token.
fn classify_doc_ident(text: Vec<u8>) -> (r: Token)
    ensures
        doc_ident_token(text@) == (r.kind, r.literal@),
{
    let w = kw_data_vec();
    if matches_word(&text, &w) {
        return Token::new(TokenKind::Data, text);
    }
    let w = kw_sheets_vec();
    if matches_word(&text, &w) {
        return Token::new(TokenKind::Sheets, text);
    }
    let w = kw_id_vec();
    if matches_word(&text, &w) {
        return Token::new(TokenKind::Id, text);
    }
    let w = kw_submission_url_vec();
    if matches_word(&text, &w) {
        return Token::new(TokenKind::Submission_url, text);
    }
    let w_t = kw_true_uc_vec();
    let w_f = kw_false_uc_vec();
    proof {
        assert(kw_true_uc() =~= upper_seq(kw_true()));
        assert(kw_false_uc() =~= upper_seq(kw_false()));
    }
    if matches_word(&text, &w_t) || matches_word(&text, &w_f) {
        return Token::new(TokenKind::Bool, text);
    }
    Token::new(TokenKind::Identifier, text)
}

/// The formula lexer: tokenizes one embedded formula expression.
#[derive(Debug)]
pub struct Operation {
    pub body: Vec<u8>,
}

impl Operation {
    /// Builds a formula lexer over one expression's text.
    pub fn new(body: Vec<u8>) -> (o: Operation)
        ensures
            o.body == body,
    {
        Operation { body }
    }

    /// Tokenizes the expression.
    #[verifier::rlimit(100)]
    pub fn lex(&self) -> (r: Vec<Token>)
        ensures
            token_views(r@) == lex_formula_from(self.body@, 0),
    {
        let s = &self.body;
        let n = s.len();
        let ghost sv = self.body@;
        let mut out: Vec<Token> = Vec::new();
        let mut i: usize = 0;
        proof {
            assert(token_views(out@) =~= Seq::<(TokenKind, Seq<u8>)>::empty());
            assert(token_views(out@) + lex_formula_from(sv, 0) =~= lex_formula_from(sv, 0));
        }
        while i < n
            invariant
                n == sv.len(),
                sv == self.body@,
                s == &self.body,
                0 <= i <= n,
                lex_formula_from(sv, 0) == token_views(out@) + lex_formula_from(sv, i as int),
            decreases n - i,
        {
            let ghost i0 = i as int;
            let ghost pre = out@;
            let c = s[i];
            if c >= '0' as u8 && c <= '9' as u8 {
                let j = digit_run_end_e(s, i + 1);
                if j < n && s[j] == '.' as u8 {
                    let j2 = digit_run_end_e(s, j + 1);
                    push_token(&mut out, TokenKind::Double, subvec(s, i, j2));
                    proof {
                        assert(lex_formula_from(sv, i0) =~= seq![
                            (TokenKind::Double, sv.subrange(i0, j2 as int)),
                        ] + lex_formula_from(sv, j2 as int));
                        assert(token_views(out@) + lex_formula_from(sv, j2 as int)
                            =~= token_views(pre) + lex_formula_from(sv, i0));
                    }
                    i = j2;
                } else {
                    push_token(&mut out, TokenKind::Int, subvec(s, i, j));
                    proof {
                        assert(lex_formula_from(sv, i0) =~= seq![
                            (TokenKind::Int, sv.subrange(i0, j as int)),
                        ] + lex_formula_from(sv, j as int));
                        assert(token_views(out@) + lex_formula_from(sv, j as int)
                            =~= token_views(pre) + lex_formula_from(sv, i0));
                    }
                    i = j;
                }
            } else if c == '(' as u8 {
                push_token(&mut out, TokenKind::Op_Paren_o, Vec::new());
                proof {
                    assert(lex_formula_from(sv, i0) =~= seq![
                        (TokenKind::Op_Paren_o, Seq::<u8>::empty()),
                    ] + lex_formula_from(sv, i0 + 1));
                    assert(token_views(out@) + lex_formula_from(sv, i0 + 1) =~= token_views(pre)
                        + lex_formula_from(sv, i0));
                }
                i = i + 1;
            } else if c == ')' as u8 {
                push_token(&mut out, TokenKind::Op_Paren_c, Vec::new());
                proof {
                    assert(lex_formula_from(sv, i0) =~= seq![
                        (TokenKind::Op_Paren_c, Seq::<u8>::empty()),
                    ] + lex_formula_from(sv, i0 + 1));
                    assert(token_views(out@) + lex_formula_from(sv, i0 + 1) =~= token_views(pre)
                        + lex_formula_from(sv, i0));
                }
                i = i + 1;
            } else if c == '=' as u8 {
                push_token(&mut out, TokenKind::Assign, Vec::new());
                proof {
                    assert(lex_formula_from(sv, i0) =~= seq![
                        (TokenKind::Assign, Seq::<u8>::empty()),
                    ] + lex_formula_from(sv, i0 + 1));
                    assert(token_views(out@) + lex_formula_from(sv, i0 + 1) =~= token_views(pre)
                        + lex_formula_from(sv, i0));
                }
                i = i + 1;
            } else if c == ',' as u8 {
                push_token(&mut out, TokenKind::Comma, Vec::new());
                proof {
                    assert(lex_formula_from(sv, i0) =~= seq![
                        (TokenKind::Comma, Seq::<u8>::empty()),
                    ] + lex_formula_from(sv, i0 + 1));
                    assert(token_views(out@) + lex_formula_from(sv, i0 + 1) =~= token_views(pre)
                        + lex_formula_from(sv, i0));
                }
                i = i + 1;
            } else if c == '"' as u8 || (c == '\\' as u8 && i + 1 < n && s[i + 1] == '"' as u8) {
                let c0 = if c == '"' as u8 {
                    i + 1
                } else {
                    i + 2
                };
                let e = f_str_end_e(s, c0);
                proof {
                    lemma_f_str_end_bounds(sv, c0 as int);
                }
                if e < n && s[e] == '"' as u8 {
                    let mut text: Vec<u8> = vec!['"' as u8];
                    let content = subvec(s, c0, e);
                    crate::text::append_bytes(&mut text, &content);
                    text.push('"' as u8);
                    proof {
                        assert(text@ =~= seq![quote_byte()] + sv.subrange(c0 as int, e as int)
                            + seq![quote_byte()]);
                    }
                    push_token(&mut out, TokenKind::Str, text);
                    proof {
                        assert(lex_formula_from(sv, i0) =~= seq![
                            (
                                TokenKind::Str,
                                seq![quote_byte()] + sv.subrange(c0 as int, e as int) + seq![
                                    quote_byte(),
                                ],
                            ),
                        ] + lex_formula_from(sv, e + 1));
                        assert(token_views(out@) + lex_formula_from(sv, e + 1)
                            =~= token_views(pre) + lex_formula_from(sv, i0));
                    }
                    i = e + 1;
                } else if e < n && s[e] == '\\' as u8 {
                    let mut text: Vec<u8> = vec!['"' as u8];
                    let content = subvec(s, c0, e);
                    crate::text::append_bytes(&mut text, &content);
                    text.push('"' as u8);
                    proof {
                        assert(text@ =~= seq![quote_byte()] + sv.subrange(c0 as int, e as int)
                            + seq![quote_byte()]);
                    }
                    push_token(&mut out, TokenKind::Str, text);
                    proof {
                        assert(lex_formula_from(sv, i0) =~= seq![
                            (
                                TokenKind::Str,
                                seq![quote_byte()] + sv.subrange(c0 as int, e as int) + seq![
                                    quote_byte(),
                                ],
                            ),
                        ] + lex_formula_from(sv, e + 2));
                        assert(token_views(out@) + lex_formula_from(sv, e + 2)
                            =~= token_views(pre) + lex_formula_from(sv, i0));
                    }
                    i = e + 2;
                } else if e < n {
                    proof {
                        assert(lex_formula_from(sv, i0) =~= lex_formula_from(sv, e + 1));
                    }
                    i = e + 1;
                } else {
                    proof {
                        assert(lex_formula_from(sv, i0) =~= Seq::<(TokenKind, Seq<u8>)>::empty());
                        assert(token_views(out@) + lex_formula_from(sv, n as int)
                            =~= token_views(pre) + lex_formula_from(sv, i0));
                    }
                    i = n;
                }
            } else if c >= 'a' as u8 && c <= 'z' as u8 || c >= 'A' as u8 && c <= 'Z' as u8 {
                let j = alnum_run_end_e(s, i + 1);
                let text = subvec(s, i, j);
                let t_opt = classify_formula_ident(text);
                match t_opt {
                    Some(t) => {
                        let ghost tv = t;
                        out.push(t);
                        proof {
                            assert(out@ == pre.push(tv));
                            assert(token_views(pre.push(tv)) =~= token_views(pre).push(
                                (tv.kind, tv.literal@),
                            ));
                            assert(lex_formula_from(sv, i0) =~= seq![(tv.kind, tv.literal@)]
                                + lex_formula_from(sv, j as int));
                            assert(token_views(out@) + lex_formula_from(sv, j as int)
                                =~= token_views(pre) + lex_formula_from(sv, i0));
                        }
                    }
                    None => {
                        proof {
                            assert(lex_formula_from(sv, i0) =~= Seq::<
                                (TokenKind, Seq<u8>),
                            >::empty() + lex_formula_from(sv, j as int));
                            assert(token_views(out@) + lex_formula_from(sv, j as int)
                                =~= token_views(pre) + lex_formula_from(sv, i0));
                        }
                    }
                }
                i = j;
            } else {
                proof {
                    assert(lex_formula_from(sv, i0) =~= lex_formula_from(sv, i0 + 1));
                }
                i = i + 1;
            }
        }
        proof {
            assert(lex_formula_from(sv, n as int) =~= Seq::<(TokenKind, Seq<u8>)>::empty());
            assert(token_views(out@) + Seq::<(TokenKind, Seq<u8>)>::empty() =~= token_views(out@));
        }
        out
    }
}

/// The token kind of one document punctuation byte, if it is one.
pub open spec fn doc_punct_kind_spec(c: u8) -> Option<TokenKind> {
    if c == '=' as u8 {
        Some(TokenKind::Assign)
    } else if c == '(' as u8 {
        Some(TokenKind::Op_Paren_o)
    } else if c == ')' as u8 {
        Some(TokenKind::Op_Paren_c)
    } else if c == '[' as u8 {
        Some(TokenKind::Arr_o)
    } else if c == ']' as u8 {
        Some(TokenKind::Arr_c)
    } else if c == '{' as u8 {
        Some(TokenKind::OP_Brace_o)
    } else if c == '}' as u8 {
        Some(TokenKind::OP_Brace_c)
    } else if c == '.' as u8 {
        Some(TokenKind::Colon)
    } else if c == ',' as u8 {
        Some(TokenKind::Comma)
    } else if c == ';' as u8 {
        Some(TokenKind::Semicolon)
    } else if c == ':' as u8 {
        Some(TokenKind::Punc)
    } else {
        None
    }
}

fn doc_step_number(s: &Vec<u8>, i: usize, out: &mut Vec<Token>) -> (r: usize)
    requires
        i < s@.len(),
        is_digit(s@[i as int]),
    ensures
        i < r <= s@.len(),
        token_views(final(out)@) + lex_doc_from(s@, r as int) == token_views(old(out)@)
            + lex_doc_from(s@, i as int),
{
    let ghost sv = s@;
    let ghost i0 = i as int;
    let n = s.len();
    let j = digit_run_end_e(s, i + 1);
    if j < n && s[j] == '.' as u8 {
        let j2 = digit_run_end_e(s, j + 1);
        push_token(out, TokenKind::Double, subvec(s, i, j2));
        proof {
            assert(lex_doc_from(sv, i0) =~= seq![(TokenKind::Double, sv.subrange(i0, j2 as int))]
                + lex_doc_from(sv, j2 as int));
            assert(token_views(out@) + lex_doc_from(sv, j2 as int) =~= token_views(old(out)@)
                + lex_doc_from(sv, i0));
        }
        j2
    } else {
        push_token(out, TokenKind::Int, subvec(s, i, j));
        proof {
            assert(lex_doc_from(sv, i0) =~= seq![(TokenKind::Int, sv.subrange(i0, j as int))]
                + lex_doc_from(sv, j as int));
            assert(token_views(out@) + lex_doc_from(sv, j as int) =~= token_views(old(out)@)
                + lex_doc_from(sv, i0));
        }
        j
    }
}

/// Whether a byte is document punctuation, and its token kind.
fn doc_punct_kind(c: u8) -> (r: Option<TokenKind>)
    ensures
        r == doc_punct_kind_spec(c),
{
    if c == '=' as u8 {
        Some(TokenKind::Assign)
    } else if c == '(' as u8 {
        Some(TokenKind::Op_Paren_o)
    } else if c == ')' as u8 {
        Some(TokenKind::Op_Paren_c)
    } else if c == '[' as u8 {
        Some(TokenKind::Arr_o)
    } else if c == ']' as u8 {
        Some(TokenKind::Arr_c)
    } else if c == '{' as u8 {
        Some(TokenKind::OP_Brace_o)
    } else if c == '}' as u8 {
        Some(TokenKind::OP_Brace_c)
    } else if c == '.' as u8 {
        Some(TokenKind::Colon)
    } else if c == ',' as u8 {
        Some(TokenKind::Comma)
    } else if c == ';' as u8 {
        Some(TokenKind::Semicolon)
    } else if c == ':' as u8 {
        Some(TokenKind::Punc)
    } else {
        None
    }
}

fn doc_step_quote(s: &Vec<u8>, i: usize, out: &mut Vec<Token>) -> (r: usize)
    requires
        i < s@.len(),
        s@[i as int] == quote_byte(),
    ensures
        i < r <= s@.len(),
        token_views(final(out)@) + lex_doc_from(s@, r as int) == token_views(old(out)@)
            + lex_doc_from(s@, i as int),
{
    let ghost sv = s@;
    let ghost i0 = i as int;
    let n = s.len();
    if i + 1 < n && s[i + 1] == '=' as u8 {
        let c0 = i + 2;
        let e = f_embed_end_e(s, c0);
        proof {
            lemma_f_embed_end_bounds(sv, c0 as int);
        }
        if e < n && s[e] == '"' as u8 {
            let content = subvec(s, c0, e);
            let op = Operation::new(content);
            let ftoks = op.lex();
            append_tokens(out, &ftoks);
            proof {
                assert(token_views(ftoks@) == lex_formula_from(
                    sv.subrange(c0 as int, e as int),
                    0,
                ));
                assert(lex_doc_from(sv, i0) =~= lex_formula_from(
                    sv.subrange(c0 as int, e as int),
                    0,
                ) + lex_doc_from(sv, e + 1));
                assert(token_views(out@) + lex_doc_from(sv, e + 1) =~= token_views(old(out)@)
                    + lex_doc_from(sv, i0));
            }
            e + 1
        } else if e < n {
            proof {
                assert(lex_doc_from(sv, i0) =~= lex_doc_from(sv, e + 1));
            }
            e + 1
        } else {
            proof {
                assert(lex_doc_from(sv, i0) =~= Seq::<(TokenKind, Seq<u8>)>::empty());
                assert(token_views(out@) + lex_doc_from(sv, n as int) =~= token_views(old(out)@)
                    + lex_doc_from(sv, i0));
            }
            n
        }
    } else {
        let c0 = i + 1;
        let e = d_str_end_e(s, c0);
        proof {
            lemma_d_str_end_bounds(sv, c0 as int);
        }
        if e < n && s[e] == '"' as u8 {
            push_token(out, TokenKind::Str, subvec(s, c0, e));
            proof {
                assert(lex_doc_from(sv, i0) =~= seq![
                    (TokenKind::Str, sv.subrange(c0 as int, e as int)),
                ] + lex_doc_from(sv, e + 1));
                assert(token_views(out@) + lex_doc_from(sv, e + 1) =~= token_views(old(out)@)
                    + lex_doc_from(sv, i0));
            }
            e + 1
        } else if e < n {
            proof {
                assert(lex_doc_from(sv, i0) =~= lex_doc_from(sv, e + 1));
            }
            e + 1
        } else {
            proof {
                assert(lex_doc_from(sv, i0) =~= Seq::<(TokenKind, Seq<u8>)>::empty());
                assert(token_views(out@) + lex_doc_from(sv, n as int) =~= token_views(old(out)@)
                    + lex_doc_from(sv, i0));
            }
            n
        }
    }
}

fn doc_step_ident(s: &Vec<u8>, i: usize, out: &mut Vec<Token>) -> (r: usize)
    requires
        i < s@.len(),
        is_alpha(s@[i as int]),
    ensures
        i < r <= s@.len(),
        token_views(final(out)@) + lex_doc_from(s@, r as int) == token_views(old(out)@)
            + lex_doc_from(s@, i as int),
{
    let ghost sv = s@;
    let ghost i0 = i as int;
    let ghost pre = out@;
    let _n = s.len();
    let j = word_run_end_e(s, i + 1);
    let text = subvec(s, i, j);
    let t = classify_doc_ident(text);
    let ghost tv = t;
    out.push(t);
    proof {
        assert(out@ == pre.push(tv));
        assert(token_views(pre.push(tv)) =~= token_views(pre).push((tv.kind, tv.literal@)));
        assert(lex_doc_from(sv, i0) =~= seq![(tv.kind, tv.literal@)] + lex_doc_from(sv, j as int));
        assert(token_views(out@) + lex_doc_from(sv, j as int) =~= token_views(pre) + lex_doc_from(
            sv,
            i0,
        ));
    }
    j
}

/// The document lexer: tokenizes the outer document text and splices
/// embedded formula tokens into the stream.
#[derive(Debug)]
pub struct Lexer {
    pub body: Vec<u8>,
}

impl Lexer {
    /// Builds a document lexer over the raw document text.
    pub fn new(body: Vec<u8>) -> (l: Lexer)
        ensures
            l.body == body,
    {
        Lexer { body }
    }

    /// Tokenizes the document, ending the stream with the end-of-stream
    /// marker.
    pub fn lex(&self) -> (r: Vec<Token>)
        ensures
            token_views(r@) == lex_doc_spec(self.body@),
    {
        let s = &self.body;
        let n = s.len();
        let ghost sv = self.body@;
        let mut out: Vec<Token> = Vec::new();
        let mut i: usize = 0;
        proof {
            assert(token_views(out@) =~= Seq::<(TokenKind, Seq<u8>)>::empty());
            assert(token_views(out@) + lex_doc_from(sv, 0) =~= lex_doc_from(sv, 0));
        }
        while i < n
            invariant
                n == sv.len(),
                sv == self.body@,
                s == &self.body,
                0 <= i <= n,
                lex_doc_from(sv, 0) == token_views(out@) + lex_doc_from(sv, i as int),
            decreases n - i,
        {
            let ghost i0 = i as int;
            let ghost pre = out@;
            let c = s[i];
            if c >= '0' as u8 && c <= '9' as u8 {
                i = doc_step_number(s, i, &mut out);
            } else if c == '"' as u8 {
                i = doc_step_quote(s, i, &mut out);
            } else if c >= 'a' as u8 && c <= 'z' as u8 || c >= 'A' as u8 && c <= 'Z' as u8 {
                i = doc_step_ident(s, i, &mut out);
            } else {
                let pk = doc_punct_kind(c);
                match pk {
                    Some(k) => {
                        push_token(&mut out, k, Vec::new());
                        proof {
                            assert(lex_doc_from(sv, i0) =~= seq![(k, Seq::<u8>::empty())]
                                + lex_doc_from(sv, i0 + 1));
                            assert(token_views(out@) + lex_doc_from(sv, i0 + 1) =~= token_views(
                                pre,
                            ) + lex_doc_from(sv, i0));
                        }
                        i = i + 1;
                    }
                    None => {
                        proof {
                            assert(lex_doc_from(sv, i0) =~= lex_doc_from(sv, i0 + 1));
                        }
                        i = i + 1;
                    }
                }
            }
        }
        proof {
            assert(lex_doc_from(sv, n as int) =~= Seq::<(TokenKind, Seq<u8>)>::empty());
            assert(token_views(out@) + Seq::<(TokenKind, Seq<u8>)>::empty() =~= token_views(out@));
        }
        push_token(&mut out, TokenKind::Eof, Vec::new());
        proof {
            assert(token_views(out@) =~= lex_doc_spec(sv));
        }
        out
    }
}

} // verus!
