//! The type grammar of the interface description: a recognized base type
//! name followed by zero or more array-dimension suffixes, each either
//! unbounded (`[]`) or sized (`[N]`), applied innermost-first so that the
//! last suffix in the text is the outermost dimension.

use vstd::prelude::*;

use crate::digits::dec_digit;
use crate::digits::dec_val;
use crate::digits::is_dec_digit;
use crate::error::EthError;

verus! {

/// A recognized base type.
#[derive(Clone, Copy, Debug, PartialEq, Eq, Structural)]
pub enum Base {
    /// A 20-byte address.
    Address,
    /// A 256-bit unsigned integer.
    Uint256,
    /// A variable-length byte buffer.
    Bytes,
    /// A boolean.
    Bool,
    /// A byte buffer of the given fixed width, 1 to 32.
    FixedBytes(u32),
}

/// One array-dimension suffix.
#[derive(Clone, Copy, Debug, PartialEq, Eq, Structural)]
pub enum Dim {
    /// `[]`: no size given.
    Unbounded,
    /// `[N]`: a declared size.
    Sized(u64),
}

/// A parsed type: the base plus its suffixes, leftmost suffix first.
#[derive(Clone, Debug)]
pub struct AbiType {
    /// The base type.
    pub base: Base,
    /// The array-dimension suffixes, in textual order.
    pub dims: Vec<Dim>,
}

/// The mathematical shape of an [`AbiType`].
pub struct AbiTypeV {
    pub base: Base,
    pub dims: Seq<Dim>,
}

impl View for AbiType {
    type V = AbiTypeV;

    open spec fn view(&self) -> AbiTypeV {
        AbiTypeV { base: self.base, dims: self.dims@ }
    }
}

/// The characters of the base type name `address`.
pub open spec fn address_chars() -> Seq<char> {
    seq!['a', 'd', 'd', 'r', 'e', 's', 's']
}

/// The characters of the base type name `uint256`.
pub open spec fn uint256_chars() -> Seq<char> {
    seq!['u', 'i', 'n', 't', '2', '5', '6']
}

/// The characters of the base type name `bool`.
pub open spec fn bool_chars() -> Seq<char> {
    seq!['b', 'o', 'o', 'l']
}

/// The characters of the base type name `bytes`.
pub open spec fn bytes_chars() -> Seq<char> {
    seq!['b', 'y', 't', 'e', 's']
}

/// The first position at or after `i` that does not hold a decimal digit.
pub open spec fn digit_run_end(s: Seq<char>, i: int) -> int
    decreases s.len() - i,
{
    if i < s.len() && is_dec_digit(s[i]) {
        digit_run_end(s, i + 1)
    } else {
        i
    }
}

/// The base type spelt at the front of `s`, with the number of
/// characters it takes; `None` when no recognized base type starts `s`.
pub open spec fn spec_parse_base(s: Seq<char>) -> Option<(Base, int)> {
    if s.len() >= 7 && s.subrange(0, 7) == address_chars() {
        Some((Base::Address, 7))
    } else if s.len() >= 7 && s.subrange(0, 7) == uint256_chars() {
        Some((Base::Uint256, 7))
    } else if s.len() >= 4 && s.subrange(0, 4) == bool_chars() {
        Some((Base::Bool, 4))
    } else if s.len() >= 5 && s.subrange(0, 5) == bytes_chars() {
        let e = digit_run_end(s, 5);
        if e == 5 {
            Some((Base::Bytes, 5))
        } else if 1 <= dec_val(s.subrange(5, e)) <= 32 {
            Some((Base::FixedBytes(dec_val(s.subrange(5, e)) as u32), e))
        } else {
            None
        }
    } else {
        None
    }
}

/// The array-dimension suffixes spelt by `s` from position `i` to its
/// end; `None` when that stretch is not a run of suffixes.
pub open spec fn spec_parse_dims(s: Seq<char>, i: int) -> Option<Seq<Dim>>
    decreases s.len() - i,
        via spec_parse_dims_decreases
{
    if i >= s.len() {
        Some(Seq::empty())
    } else if s[i] == '[' {
        let e = digit_run_end(s, i + 1);
        if e < s.len() && s[e] == ']' {
            let rest = spec_parse_dims(s, e + 1);
            if rest is Some {
                if e == i + 1 {
                    Some(seq![Dim::Unbounded] + rest->Some_0)
                } else if dec_val(s.subrange(i + 1, e)) <= u64::MAX {
                    Some(seq![Dim::Sized(dec_val(s.subrange(i + 1, e)) as u64)] + rest->Some_0)
                } else {
                    None
                }
            } else {
                None
            }
        } else {
            None
        }
    } else {
        None
    }
}

#[via_fn]
proof fn spec_parse_dims_decreases(s: Seq<char>, i: int) {
    if i < s.len() {
        lemma_digit_run_end_bounds(s, i + 1);
    }
}

/// `digit_run_end` stays between its start and the string's end.
pub proof fn lemma_digit_run_end_bounds(s: Seq<char>, i: int)
    requires
        i <= s.len(),
    ensures
        i <= digit_run_end(s, i) <= s.len(),
    decreases s.len() - i,
{
    if i < s.len() && is_dec_digit(s[i]) {
        lemma_digit_run_end_bounds(s, i + 1);
    }
}

/// The type spelt by `s` as a whole, or `None` when `s` is not a
/// recognized type.
pub open spec fn spec_parse_abi_type(s: Seq<char>) -> Option<AbiTypeV> {
    match spec_parse_base(s) {
        Option::None => Option::None,
        Option::Some((b, k)) => match spec_parse_dims(s, k) {
            Option::None => Option::None,
            Option::Some(ds) => Option::Some(AbiTypeV { base: b, dims: ds }),
        },
    }
}

/// Read the run of decimal digits starting at `i`, as a 64-bit value.
/// Returns the value (`None` when it overflows) and the run's end.
fn scan_digits(s: &str, i: usize, n: usize) -> (r: (Option<u64>, usize))
    requires
        n == s@.len(),
        0 <= i <= n,
    ensures
        r.1 == digit_run_end(s@, i as int),
        i <= r.1 <= n,
        r.0 is Some <==> dec_val(s@.subrange(i as int, digit_run_end(s@, i as int))) <= u64::MAX,
        r.0 matches Some(v) ==> v == dec_val(s@.subrange(i as int, digit_run_end(s@, i as int))),
{
    let mut j: usize = i;
    let mut acc: Option<u64> = Some(0);
    proof {
        assert(s@.subrange(i as int, i as int) =~= Seq::<char>::empty());
    }
    while j < n
        invariant_except_break
            i <= j <= n,
            n == s@.len(),
            forall|k: int| i <= k < j ==> is_dec_digit(#[trigger] s@[k]),
            digit_run_end(s@, j as int) == digit_run_end(s@, i as int),
            acc is Some <==> dec_val(s@.subrange(i as int, j as int)) <= u64::MAX,
            acc matches Some(v) ==> v == dec_val(s@.subrange(i as int, j as int)),
        ensures
            i <= j <= n,
            j == digit_run_end(s@, i as int),
            acc is Some <==> dec_val(s@.subrange(i as int, j as int)) <= u64::MAX,
            acc matches Some(v) ==> v == dec_val(s@.subrange(i as int, j as int)),
        decreases n - j,
    {
        let c = s.get_char(j);
        let d = match dec_digit(c) {
            Some(d) => d,
            None => {
                proof {
                    assert(digit_run_end(s@, j as int) == j);
                }
                break ;
            },
        };
        proof {
            let sub = s@.subrange(i as int, j as int + 1);
            assert(sub.drop_last() =~= s@.subrange(i as int, j as int));
            assert(sub.last() == s@[j as int]);
            let pv = dec_val(s@.subrange(i as int, j as int));
            assert(pv <= pv * 10) by (nonlinear_arith)
                requires
                    pv >= 0,
            ;
        }
        acc = match acc {
            Some(x) => {
                if x > (u64::MAX - d as u64) / 10 {
                    proof {
                        let m = u64::MAX as int;
                        assert(x * 10 + d > m) by (nonlinear_arith)
                            requires
                                x > (m - d) / 10,
                                0 <= d < 10,
                                m == 0xffffffffffffffff,
                                x >= 0,
                        ;
                    }
                    None
                } else {
                    proof {
                        let m = u64::MAX as int;
                        assert(x * 10 + d <= m) by (nonlinear_arith)
                            requires
                                x <= (m - d) / 10,
                                0 <= d < 10,
                                m == 0xffffffffffffffff,
                                x >= 0,
                        ;
                    }
                    Some(x * 10 + d as u64)
                }
            },
            None => None,
        };
        j = j + 1;
    }
    proof {
        if j == n {
            assert(digit_run_end(s@, j as int) == j);
        }
    }
    (acc, j)
}

/// Parse a type string. Fails exactly when the text does not spell a
/// recognized base type followed by well-formed array suffixes.
pub fn parse_abi_type(s: &str) -> (r: Result<AbiType, EthError>)
    ensures
        r is Ok <==> spec_parse_abi_type(s@) is Some,
        r matches Ok(t) ==> t@ == spec_parse_abi_type(s@)->Some_0,
        r is Err ==> r == Err::<AbiType, EthError>(EthError::UnsupportedConversion),
{
    let n = s.unicode_len();
    let (base, mut i): (Base, usize) = match parse_base(s, n) {
        Some(bk) => bk,
        None => {
            return Err(EthError::UnsupportedConversion);
        },
    };
    let mut dims: Vec<Dim> = Vec::new();
    while i < n
        invariant
            0 <= i <= n,
            n == s@.len(),
            spec_parse_dims(s@, i as int) is Some ==> spec_parse_abi_type(s@) is Some
                && spec_parse_abi_type(s@)->Some_0 == (AbiTypeV {
                base,
                dims: dims@ + spec_parse_dims(s@, i as int)->Some_0,
            }),
            spec_parse_dims(s@, i as int) is None ==> spec_parse_abi_type(s@) is None,
        decreases n - i,
    {
        let c = s.get_char(i);
        if c != '[' {
            return Err(EthError::UnsupportedConversion);
        }
        let (val, e) = scan_digits(s, i + 1, n);
        if e >= n {
            return Err(EthError::UnsupportedConversion);
        }
        let c2 = s.get_char(e);
        if c2 != ']' {
            return Err(EthError::UnsupportedConversion);
        }
        let ghost dims0 = dims@;
        if e == i + 1 {
            dims.push(Dim::Unbounded);
        } else {
            let v = match val {
                Some(v) => v,
                None => {
                    return Err(EthError::UnsupportedConversion);
                },
            };
            dims.push(Dim::Sized(v));
        }
        proof {
            let rest = spec_parse_dims(s@, e as int + 1);
            if rest is Some {
                assert(dims0 + spec_parse_dims(s@, i as int)->Some_0 =~= dims@ + rest->Some_0);
            }
        }
        i = e + 1;
    }
    proof {
        assert(spec_parse_dims(s@, n as int) == Some(Seq::<Dim>::empty()));
        assert(dims@ + Seq::<Dim>::empty() =~= dims@);
    }
    Ok(AbiType { base, dims })
}

/// Recognize the base type at the front of `s`.
fn parse_base(s: &str, n: usize) -> (r: Option<(Base, usize)>)
    requires
        n == s@.len(),
    ensures
        r is Some <==> spec_parse_base(s@) is Some,
        r matches Some((b, k)) ==> Some((b, k as int)) == spec_parse_base(s@) && k <= n,
{
    if n >= 7 && s.get_char(0) == 'a' {
        if s.get_char(1) == 'd' && s.get_char(2) == 'd' && s.get_char(3) == 'r' && s.get_char(4)
            == 'e' && s.get_char(5) == 's' && s.get_char(6) == 's' {
            proof {
                assert(s@.subrange(0, 7) =~= address_chars());
            }
            return Some((Base::Address, 7));
        }
        proof {
            lemma_base_mismatch(s@);
        }
        return None;
    }
    if n >= 7 && s.get_char(0) == 'u' {
        if s.get_char(1) == 'i' && s.get_char(2) == 'n' && s.get_char(3) == 't' && s.get_char(4)
            == '2' && s.get_char(5) == '5' && s.get_char(6) == '6' {
            proof {
                assert(s@.subrange(0, 7) =~= uint256_chars());
            }
            return Some((Base::Uint256, 7));
        }
        proof {
            lemma_base_mismatch(s@);
        }
        return None;
    }
    if n >= 4 && s.get_char(0) == 'b' && s.get_char(1) == 'o' {
        if s.get_char(2) == 'o' && s.get_char(3) == 'l' {
            proof {
                assert(s@.subrange(0, 4) =~= bool_chars());
                lemma_base_mismatch(s@);
            }
            return Some((Base::Bool, 4));
        }
        proof {
            lemma_base_mismatch(s@);
        }
        return None;
    }
    if n >= 5 && s.get_char(0) == 'b' && s.get_char(1) == 'y' && s.get_char(2) == 't' && s.get_char(
        3,
    ) == 'e' && s.get_char(4) == 's' {
        proof {
            assert(s@.subrange(0, 5) =~= bytes_chars());
            lemma_base_mismatch(s@);
        }
        let (val, e) = scan_digits(s, 5, n);
        if e == 5 {
            return Some((Base::Bytes, 5));
        }
        match val {
            Some(v) => {
                if 1 <= v && v <= 32 {
                    return Some((Base::FixedBytes(v as u32), e));
                }
                return None;
            },
            None => {
                return None;
            },
        }
    }
    proof {
        lemma_base_mismatch(s@);
    }
    None
}

/// When the first characters rule a keyword out, the keyword's whole
/// text cannot match.
proof fn lemma_base_mismatch(s: Seq<char>)
    ensures
        s.len() >= 7 && s.subrange(0, 7) == address_chars() ==> s[0] == 'a',
        s.len() >= 7 && s.subrange(0, 7) == uint256_chars() ==> s[0] == 'u' && s[1] == 'i'
            && s[2] == 'n' && s[3] == 't' && s[4] == '2' && s[5] == '5' && s[6] == '6',
        s.len() >= 7 && s.subrange(0, 7) == address_chars() ==> s[1] == 'd' && s[2] == 'd'
            && s[3] == 'r' && s[4] == 'e' && s[5] == 's' && s[6] == 's',
        s.len() >= 4 && s.subrange(0, 4) == bool_chars() ==> s[0] == 'b' && s[1] == 'o' && s[2]
            == 'o' && s[3] == 'l',
        s.len() >= 5 && s.subrange(0, 5) == bytes_chars() ==> s[0] == 'b' && s[1] == 'y' && s[2]
            == 't' && s[3] == 'e' && s[4] == 's',
{
    if s.len() >= 7 && s.subrange(0, 7) == address_chars() {
        assert forall|i: int| 0 <= i < 7 implies s[i] == address_chars()[i] by {
            assert(s.subrange(0, 7)[i] == s[i]);
        }
    }
    if s.len() >= 7 && s.subrange(0, 7) == uint256_chars() {
        assert forall|i: int| 0 <= i < 7 implies s[i] == uint256_chars()[i] by {
            assert(s.subrange(0, 7)[i] == s[i]);
        }
    }
    if s.len() >= 4 && s.subrange(0, 4) == bool_chars() {
        assert forall|i: int| 0 <= i < 4 implies s[i] == bool_chars()[i] by {
            assert(s.subrange(0, 4)[i] == s[i]);
        }
    }
    if s.len() >= 5 && s.subrange(0, 5) == bytes_chars() {
        assert forall|i: int| 0 <= i < 5 implies s[i] == bytes_chars()[i] by {
            assert(s.subrange(0, 5)[i] == s[i]);
        }
    }
}

} // verus!
