//! Lexical scanning: input text to a sequence of tokens.
//!
//! The scanner skips spaces, recognizes `+ - * /` as single-character
//! operator tokens, and folds each maximal run of decimal digits into one
//! integer literal token.  It consumes the input left to right in a single
//! pass and stops at the first error: a digit run that does not fit in an
//! `i64`, or a character outside the language's alphabet.
//!
//! [`spec_tokenize`] states the whole of that behaviour over a `Seq<char>`,
//! and [`tokenize`] is proved to return exactly what it says.

use vstd::prelude::*;
use vstd::string::StrSliceExecFns;

verus! {

/// The smallest lexical unit of the expression language: one of the four
/// operator symbols, or a 64-bit integer literal.
#[derive(Debug, Clone, Copy, PartialEq)]
pub enum Token {
    Plus,
    Minus,
    Asterisk,
    Slash,
    Int64(i64),
}

/// The ways scanning can fail: a digit run whose value does not fit in an
/// `i64`, or a character outside the language's alphabet (reported with the
/// offending character).
#[derive(Debug, Clone, Copy, PartialEq)]
pub enum TokenizeError {
    ParseIntError,
    IllegalCharacter(char),
}

/// A decimal digit.
pub open spec fn is_digit(c: char) -> bool {
    '0' <= c && c <= '9'
}

/// The characters the scanner accepts: space, the four operator symbols,
/// and decimal digits.
pub open spec fn is_legal_char(c: char) -> bool {
    c == ' ' || c == '+' || c == '-' || c == '*' || c == '/' || is_digit(c)
}

/// The numeric value of a decimal digit.
pub open spec fn digit_val(c: char) -> int
    recommends
        is_digit(c),
{
    c as u32 - 48
}

/// The decimal value of a digit sequence, most significant digit first.
pub open spec fn digits_value(s: Seq<char>) -> int
    decreases s.len(),
{
    if s.len() == 0 {
        0
    } else {
        digits_value(s.drop_last()) * 10 + digit_val(s.last())
    }
}

/// The length of the maximal run of decimal digits at the front of `s`.
pub open spec fn digit_run_len(s: Seq<char>) -> int
    decreases s.len(),
{
    if s.len() == 0 || !is_digit(s[0]) {
        0
    } else {
        1 + digit_run_len(s.skip(1))
    }
}

/// The digit run at the front of `s` is no longer than `s`, consists of
/// digits only, and is maximal: the character right after it (if any) is not
/// a digit.
pub proof fn lemma_digit_run_len_bounds(s: Seq<char>)
    ensures
        0 <= digit_run_len(s) <= s.len(),
        s.len() > 0 && is_digit(s[0]) ==> digit_run_len(s) >= 1,
        forall|j: int| 0 <= j < digit_run_len(s) ==> is_digit(#[trigger] s[j]),
        digit_run_len(s) < s.len() ==> !is_digit(s[digit_run_len(s)]),
    decreases s.len(),
{
    if s.len() == 0 || !is_digit(s[0]) {
    } else {
        lemma_digit_run_len_bounds(s.skip(1));
        assert forall|j: int| 0 <= j < digit_run_len(s) implies is_digit(#[trigger] s[j]) by {
            if j > 0 {
                assert(s.skip(1)[j - 1] == s[j]);
            }
        }
        if digit_run_len(s) < s.len() {
            assert(s.skip(1)[digit_run_len(s) - 1] == s[digit_run_len(s)]);
        }
    }
}

/// Any position `k` that is preceded by digits only and followed by a
/// non-digit (or the end of `s`) is the length of the front digit run.
pub proof fn lemma_digit_run_len_is(s: Seq<char>, k: int)
    requires
        0 <= k <= s.len(),
        forall|j: int| 0 <= j < k ==> is_digit(#[trigger] s[j]),
        k < s.len() ==> !is_digit(s[k]),
    ensures
        digit_run_len(s) == k,
    decreases s.len(),
{
    if k == 0 {
        lemma_digit_run_len_bounds(s);
    } else {
        assert forall|j: int| 0 <= j < k - 1 implies is_digit(#[trigger] s.skip(1)[j]) by {
            assert(s.skip(1)[j] == s[j + 1]);
        }
        if k - 1 < s.skip(1).len() {
            assert(s.skip(1)[k - 1] == s[k]);
        }
        lemma_digit_run_len_is(s.skip(1), k - 1);
    }
}

/// The value of a digit sequence is never negative.
pub proof fn lemma_digits_value_nonneg(s: Seq<char>)
    requires
        forall|j: int| 0 <= j < s.len() ==> is_digit(#[trigger] s[j]),
    ensures
        digits_value(s) >= 0,
    decreases s.len(),
{
    if s.len() > 0 {
        lemma_digits_value_nonneg(s.drop_last());
    }
}

/// Extending a digit sequence can only grow its value.
pub proof fn lemma_digits_value_prefix_le(s: Seq<char>, k: int)
    requires
        forall|j: int| 0 <= j < s.len() ==> is_digit(#[trigger] s[j]),
        0 <= k <= s.len(),
    ensures
        digits_value(s.take(k)) <= digits_value(s),
    decreases s.len() - k,
{
    if k == s.len() {
        assert(s.take(k) =~= s);
    } else {
        assert forall|j: int| 0 <= j < s.take(k).len() implies is_digit(#[trigger] s.take(k)[j]) by {
            assert(s.take(k)[j] == s[j]);
        }
        lemma_digits_value_nonneg(s.take(k));
        assert(s.take(k + 1).drop_last() =~= s.take(k));
        assert(s.take(k + 1).last() == s[k]);
        lemma_digits_value_prefix_le(s, k + 1);
    }
}

/// Prepends a token to the token sequence of a successful scan; an error is
/// kept as it is.
pub open spec fn cons_token(t: Token, r: Result<Seq<Token>, TokenizeError>) -> Result<
    Seq<Token>,
    TokenizeError,
> {
    match r {
        Ok(toks) => Ok(seq![t] + toks),
        Err(e) => Err(e),
    }
}

/// What scanning returns, stated over the input's character sequence.
///
/// Spaces are skipped; each operator symbol becomes its token; a maximal
/// digit run becomes one `Int64` token if its decimal value fits in an
/// `i64` and fails the whole scan otherwise; any other character fails the
/// scan, named in the error.  The first error wins and no tokens are
/// returned beside it.
pub open spec fn spec_tokenize(s: Seq<char>) -> Result<Seq<Token>, TokenizeError>
    decreases s.len(),
    via spec_tokenize_decreases
{
    if s.len() == 0 {
        Ok(Seq::empty())
    } else if s[0] == ' ' {
        spec_tokenize(s.skip(1))
    } else if s[0] == '+' {
        cons_token(Token::Plus, spec_tokenize(s.skip(1)))
    } else if s[0] == '-' {
        cons_token(Token::Minus, spec_tokenize(s.skip(1)))
    } else if s[0] == '*' {
        cons_token(Token::Asterisk, spec_tokenize(s.skip(1)))
    } else if s[0] == '/' {
        cons_token(Token::Slash, spec_tokenize(s.skip(1)))
    } else if is_digit(s[0]) {
        let n = digit_run_len(s);
        let v = digits_value(s.take(n));
        if v <= i64::MAX {
            cons_token(Token::Int64(v as i64), spec_tokenize(s.skip(n)))
        } else {
            Err(TokenizeError::ParseIntError)
        }
    } else {
        Err(TokenizeError::IllegalCharacter(s[0]))
    }
}

#[via_fn]
proof fn spec_tokenize_decreases(s: Seq<char>) {
    if s.len() > 0 && is_digit(s[0]) {
        lemma_digit_run_len_bounds(s);
    }
}

/// Scanning an input of decimal digits alone yields the single literal
/// token carrying the run's decimal value when that value fits in an
/// `i64`, and fails with the overflow error otherwise.
pub proof fn lemma_tokenize_all_digits(s: Seq<char>)
    requires
        s.len() > 0,
        forall|j: int| 0 <= j < s.len() ==> is_digit(#[trigger] s[j]),
    ensures
        digits_value(s) <= i64::MAX ==> spec_tokenize(s) == Ok::<Seq<Token>, TokenizeError>(
            seq![Token::Int64(digits_value(s) as i64)],
        ),
        digits_value(s) > i64::MAX ==> spec_tokenize(s) == Err::<Seq<Token>, TokenizeError>(
            TokenizeError::ParseIntError,
        ),
{
    reveal_with_fuel(spec_tokenize, 2);
    lemma_digit_run_len_is(s, s.len() as int);
    assert(s.take(s.len() as int) =~= s);
    assert(s.skip(s.len() as int) =~= Seq::<char>::empty());
    if digits_value(s) <= i64::MAX {
        assert(seq![Token::Int64(digits_value(s) as i64)] + Seq::<Token>::empty()
            =~= seq![Token::Int64(digits_value(s) as i64)]);
    }
}

/// Every maximal digit run that starts strictly before position `i` has a
/// decimal value that fits in an `i64`.
pub open spec fn runs_fit_before(s: Seq<char>, i: int) -> bool {
    forall|j: int|
        0 <= j < i && is_digit(s[j]) && (j == 0 || !is_digit(s[j - 1])) ==> digits_value(
            #[trigger] s.skip(j).take(digit_run_len(s.skip(j))),
        ) <= i64::MAX
}

/// Scanning an input whose first character outside the alphabet stands at
/// position `i` fails with `IllegalCharacter` naming exactly that
/// character, and produces no tokens beside the error — provided no digit
/// run before it overflows (an overflowing run would win as the first
/// error).
pub proof fn lemma_tokenize_illegal_character(s: Seq<char>, i: int)
    requires
        0 <= i < s.len(),
        !is_legal_char(s[i]),
        forall|j: int| 0 <= j < i ==> is_legal_char(#[trigger] s[j]),
        runs_fit_before(s, i),
    ensures
        spec_tokenize(s) == Err::<Seq<Token>, TokenizeError>(TokenizeError::IllegalCharacter(
            s[i],
        )),
    decreases i,
{
    if i == 0 {
    } else {
        let c = s[0];
        if c == ' ' || c == '+' || c == '-' || c == '*' || c == '/' {
            let t = s.skip(1);
            assert(t[i - 1] == s[i]);
            assert forall|j: int| 0 <= j < i - 1 implies is_legal_char(#[trigger] t[j]) by {
                assert(t[j] == s[j + 1]);
            }
            assert forall|j: int|
                0 <= j < i - 1 && is_digit(t[j]) && (j == 0 || !is_digit(t[j - 1])) implies
                digits_value(#[trigger] t.skip(j).take(digit_run_len(t.skip(j)))) <= i64::MAX by {
                assert(t[j] == s[j + 1]);
                if j > 0 {
                    assert(t[j - 1] == s[j]);
                }
                assert(is_digit(s[j + 1]) && (j + 1 == 0 || !is_digit(s[j + 1 - 1])));
                assert(digits_value(s.skip(j + 1).take(digit_run_len(s.skip(j + 1))))
                    <= i64::MAX);
                assert(t.skip(j) =~= s.skip(j + 1));
            }
            lemma_tokenize_illegal_character(t, i - 1);
        } else {
            // the first character is a digit, so a maximal run starts at 0
            lemma_digit_run_len_bounds(s);
            let n = digit_run_len(s);
            assert(n <= i);
            assert(s.skip(0) =~= s);
            assert(digits_value(s.take(n)) <= i64::MAX);
            let t = s.skip(n);
            assert(t[i - n] == s[i]);
            assert forall|j: int| 0 <= j < i - n implies is_legal_char(#[trigger] t[j]) by {
                assert(t[j] == s[j + n]);
            }
            assert forall|j: int|
                0 <= j < i - n && is_digit(t[j]) && (j == 0 || !is_digit(t[j - 1])) implies
                digits_value(#[trigger] t.skip(j).take(digit_run_len(t.skip(j)))) <= i64::MAX by {
                assert(t[j] == s[j + n]);
                if j == 0 {
                    // the run at 0 was maximal: the character at n is no digit
                    assert(!is_digit(s[n]));
                    assert(false);
                } else {
                    assert(t[j - 1] == s[j + n - 1]);
                    assert(is_digit(s[j + n]) && (j + n == 0 || !is_digit(s[j + n - 1])));
                    assert(digits_value(s.skip(j + n).take(digit_run_len(s.skip(j + n))))
                        <= i64::MAX);
                    assert(t.skip(j) =~= s.skip(j + n));
                }
            }
            lemma_tokenize_illegal_character(t, i - n);
        }
    }
}

/// Scanning is insensitive to spaces wherever they do not split a digit
/// run: inserting one space between `a` and `b` leaves the token sequence
/// (or the error) unchanged, as long as the seam does not stand between two
/// digits.
pub proof fn lemma_tokenize_space_insensitive(a: Seq<char>, b: Seq<char>)
    requires
        !(a.len() > 0 && b.len() > 0 && is_digit(a.last()) && is_digit(b[0])),
    ensures
        spec_tokenize(a + seq![' '] + b) == spec_tokenize(a + b),
    decreases a.len(),
{
    let u = a + seq![' '] + b;
    let w = a + b;
    if a.len() == 0 {
        assert(u.skip(1) =~= b);
        assert(w =~= b);
        assert(u[0] == ' ');
    } else {
        assert(u[0] == a[0]);
        assert(w[0] == a[0]);
        let c = a[0];
        if c == ' ' || c == '+' || c == '-' || c == '*' || c == '/' {
            let a1 = a.skip(1);
            if a1.len() > 0 {
                assert(a1.last() == a.last());
            }
            lemma_tokenize_space_insensitive(a1, b);
            assert(u.skip(1) =~= a1 + seq![' '] + b);
            assert(w.skip(1) =~= a1 + b);
        } else if is_digit(c) {
            lemma_digit_run_len_bounds(a);
            let n = digit_run_len(a);
            assert forall|j: int| 0 <= j < n implies is_digit(#[trigger] u[j]) by {
                assert(u[j] == a[j]);
            }
            assert forall|j: int| 0 <= j < n implies is_digit(#[trigger] w[j]) by {
                assert(w[j] == a[j]);
            }
            if n < a.len() {
                assert(u[n] == a[n]);
                assert(w[n] == a[n]);
            } else {
                // the whole of `a` is digits, so the seam stops both runs:
                // a space on one side, a non-digit (or nothing) on the other
                assert(u[n] == ' ');
                if n < w.len() {
                    assert(a.last() == a[n - 1]);
                    assert(is_digit(a.last()));
                    assert(w[n] == b[0]);
                    assert(!is_digit(w[n]));
                }
            }
            lemma_digit_run_len_is(u, n);
            lemma_digit_run_len_is(w, n);
            assert(u.take(n) =~= a.take(n));
            assert(w.take(n) =~= a.take(n));
            let v = digits_value(a.take(n));
            if v <= i64::MAX {
                let a1 = a.skip(n);
                if a1.len() > 0 {
                    assert(a1.last() == a.last());
                }
                lemma_tokenize_space_insensitive(a1, b);
                assert(u.skip(n) =~= a1 + seq![' '] + b);
                assert(w.skip(n) =~= a1 + b);
            }
        }
    }
}

proof fn lemma_tokens_join_push(pre: Seq<Token>, t: Token, r: Result<Seq<Token>, TokenizeError>)
    ensures
        tokens_join(pre.push(t), r) == tokens_join(pre, cons_token(t, r)),
{
    match r {
        Ok(toks) => {
            assert(pre.push(t) + toks =~= pre + (seq![t] + toks));
        },
        Err(_) => {},
    }
}

/// Appends the token sequence of a successful scan to an already-scanned
/// prefix; an error is kept as it is.
spec fn tokens_join(pre: Seq<Token>, r: Result<Seq<Token>, TokenizeError>) -> Result<
    Seq<Token>,
    TokenizeError,
> {
    match r {
        Ok(toks) => Ok(pre + toks),
        Err(e) => Err(e),
    }
}

/// Scans the maximal digit run starting at `*pos` and parses it as an
/// `i64` literal token, advancing `*pos` past the whole run whether or not
/// the value fits.
fn tokenize_number(input: &str, pos: &mut usize) -> (r: Result<Token, TokenizeError>)
    requires
        *old(pos) < input@.len(),
        is_digit(input@[*old(pos) as int]),
    ensures
        ({
            let s = input@.skip(*old(pos) as int);
            let run = digit_run_len(s);
            let v = digits_value(s.take(run));
            &&& *final(pos) == *old(pos) + run
            &&& r == (if v <= i64::MAX {
                Ok::<Token, TokenizeError>(Token::Int64(v as i64))
            } else {
                Err::<Token, TokenizeError>(TokenizeError::ParseIntError)
            })
        }),
{
    let start: usize = *pos;
    let len: usize = input.unicode_len();
    let ghost s = input@.skip(start as int);

    let mut end: usize = start;
    loop
        invariant
            start <= end <= len,
            len == input@.len(),
            forall|j: int| start <= j < end ==> is_digit(#[trigger] input@[j]),
        ensures
            start <= end <= len,
            forall|j: int| start <= j < end ==> is_digit(#[trigger] input@[j]),
            end == len || !is_digit(input@[end as int]),
        decreases len - end,
    {
        if end == len {
            break ;
        }
        let c = input.get_char(end);
        if !('0' <= c && c <= '9') {
            break ;
        }
        end += 1;
    }

    proof {
        assert forall|j: int| 0 <= j < end - start implies is_digit(#[trigger] s[j]) by {
            assert(s[j] == input@[start + j]);
        }
        if end - start < s.len() {
            assert(s[end - start] == input@[end as int]);
        }
        lemma_digit_run_len_is(s, end - start);
        assert(s.take(end - start) =~= input@.subrange(start as int, end as int));
    }

    let mut value: i64 = 0;
    let mut k: usize = start;
    while k < end
        invariant
            start <= k <= end <= len,
            start == *old(pos),
            len == input@.len(),
            s == input@.skip(start as int),
            digit_run_len(s) == end - start,
            s.take(end - start) == input@.subrange(start as int, end as int),
            forall|j: int| start <= j < end ==> is_digit(#[trigger] input@[j]),
            0 <= value <= i64::MAX,
            value == digits_value(input@.subrange(start as int, k as int)),
        decreases end - k,
    {
        let c = input.get_char(k);
        proof {
            assert(is_digit(c));
        }
        let d: i64 = ((c as u32) - 48) as i64;
        let ghost prefix = input@.subrange(start as int, k as int);
        let ghost extended = input@.subrange(start as int, k + 1int);
        proof {
            assert(extended.drop_last() =~= prefix);
            assert(extended.last() == input@[k as int]);
            vstd::arithmetic::div_mod::lemma_fundamental_div_mod(i64::MAX - d, 10);
        }
        if value > (i64::MAX - d) / 10 {
            proof {
                // the extended prefix already exceeds the range, and a digit
                // run's value only grows with its length
                assert(digits_value(extended) > i64::MAX);
                let whole = input@.subrange(start as int, end as int);
                assert forall|j: int| 0 <= j < whole.len() implies is_digit(
                    #[trigger] whole[j],
                ) by {
                    assert(whole[j] == input@[start + j]);
                }
                assert(whole.take(k + 1 - start) =~= extended);
                lemma_digits_value_prefix_le(whole, k + 1 - start);
            }
            *pos = end;
            return Err(TokenizeError::ParseIntError);
        }
        value = value * 10 + d;
        k += 1;
    }
    *pos = end;
    Ok(Token::Int64(value))
}

/// Scans the input text into its token sequence, left to right in a single
/// pass, returning exactly what [`spec_tokenize`] says: the tokens, or the
/// first error encountered.
pub fn tokenize(input: &str) -> (r: Result<Vec<Token>, TokenizeError>)
    ensures
        (match r {
            Ok(toks) => spec_tokenize(input@) == Ok::<Seq<Token>, TokenizeError>(toks@),
            Err(e) => spec_tokenize(input@) == Err::<Seq<Token>, TokenizeError>(e),
        }),
{
    let len: usize = input.unicode_len();
    let mut result: Vec<Token> = Vec::new();
    let mut pos: usize = 0;

    proof {
        assert(input@.skip(0) =~= input@);
        match spec_tokenize(input@) {
            Ok(toks) => {
                assert(Seq::<Token>::empty() + toks =~= toks);
            },
            Err(_) => {},
        }
    }

    while pos < len
        invariant
            pos <= len,
            len == input@.len(),
            spec_tokenize(input@) == tokens_join(result@, spec_tokenize(input@.skip(pos as int))),
        decreases len - pos,
    {
        let ghost prev = pos as int;
        let ghost pre = result@;
        let ghost s = input@.skip(prev);
        proof {
            assert(s[0] == input@[prev]);
        }
        let c = input.get_char(pos);
        if c == ' ' {
            pos += 1;
            proof {
                assert(s.skip(1) =~= input@.skip(pos as int));
            }
        } else if c == '+' {
            result.push(Token::Plus);
            pos += 1;
            proof {
                assert(s.skip(1) =~= input@.skip(pos as int));
                lemma_tokens_join_push(pre, Token::Plus, spec_tokenize(input@.skip(pos as int)));
            }
        } else if c == '-' {
            result.push(Token::Minus);
            pos += 1;
            proof {
                assert(s.skip(1) =~= input@.skip(pos as int));
                lemma_tokens_join_push(pre, Token::Minus, spec_tokenize(input@.skip(pos as int)));
            }
        } else if c == '*' {
            result.push(Token::Asterisk);
            pos += 1;
            proof {
                assert(s.skip(1) =~= input@.skip(pos as int));
                lemma_tokens_join_push(pre, Token::Asterisk, spec_tokenize(input@.skip(pos as int)));
            }
        } else if c == '/' {
            result.push(Token::Slash);
            pos += 1;
            proof {
                assert(s.skip(1) =~= input@.skip(pos as int));
                lemma_tokens_join_push(pre, Token::Slash, spec_tokenize(input@.skip(pos as int)));
            }
        } else if '0' <= c && c <= '9' {
            proof {
                lemma_digit_run_len_bounds(s);
            }
            match tokenize_number(input, &mut pos) {
                Ok(t) => {
                    result.push(t);
                    proof {
                        let run = digit_run_len(s);
                        assert(s.skip(run) =~= input@.skip(pos as int));
                        lemma_tokens_join_push(pre, t, spec_tokenize(input@.skip(pos as int)));
                    }
                },
                Err(e) => {
                    return Err(e);
                },
            }
        } else {
            return Err(TokenizeError::IllegalCharacter(c));
        }
    }
    proof {
        assert(input@.skip(len as int) =~= Seq::<char>::empty());
        assert(result@ + Seq::<Token>::empty() =~= result@);
    }
    Ok(result)
}

} // verus!
