//! Currency codes and external references: the byte-level rules a bill's
//! text fields must follow.
use super::types::BillPaymentsError;
use vstd::prelude::*;

verus! {

/// Longest accepted currency code, counted before trimming.
pub const MAX_CURRENCY_LEN: usize = 10;
/// Shortest accepted external reference.
pub const MIN_EXTERNAL_REF_LEN: usize = 1;
/// Longest accepted external reference.
pub const MAX_EXTERNAL_REF_LEN: usize = 64;

/// The ASCII space.
pub open spec fn is_space(b: u8) -> bool {
    b == 32
}

/// An ASCII letter.
pub open spec fn is_alpha(b: u8) -> bool {
    (65 <= b <= 90) || (97 <= b <= 122)
}

/// An ASCII letter or digit.
pub open spec fn is_alnum(b: u8) -> bool {
    is_alpha(b) || (48 <= b <= 57)
}

/// The upper-case form of an ASCII byte.
pub open spec fn to_upper(b: u8) -> u8 {
    if 97 <= b <= 122 {
        (b - 32) as u8
    } else {
        b
    }
}

/// `s` without its leading spaces.
pub open spec fn trim_start(s: Seq<u8>) -> Seq<u8>
    decreases s.len(),
{
    if s.len() > 0 && is_space(s[0]) {
        trim_start(s.drop_first())
    } else {
        s
    }
}

/// `s` without its trailing spaces.
pub open spec fn trim_end(s: Seq<u8>) -> Seq<u8>
    decreases s.len(),
{
    if s.len() > 0 && is_space(s.last()) {
        trim_end(s.drop_last())
    } else {
        s
    }
}

/// `s` without leading or trailing spaces.
pub open spec fn trim(s: Seq<u8>) -> Seq<u8> {
    trim_end(trim_start(s))
}

/// The currency code used when none is given.
pub open spec fn xlm() -> Seq<u8> {
    seq![88u8, 76u8, 77u8]
}

/// Non-empty and made of ASCII letters only.
pub open spec fn valid_currency_chars(s: Seq<u8>) -> bool {
    s.len() > 0 && forall|i: int| 0 <= i < s.len() ==> is_alpha(#[trigger] s[i])
}

/// What a currency code given by a caller is stored as: an empty or
/// all-space code becomes `XLM`, otherwise the trimmed letters upper-cased.
pub open spec fn spec_currency(s: Seq<u8>) -> Result<Seq<u8>, BillPaymentsError> {
    if s.len() == 0 {
        Ok(xlm())
    } else if s.len() > MAX_CURRENCY_LEN {
        Err(BillPaymentsError::InvalidCurrency)
    } else if trim(s).len() == 0 {
        Ok(xlm())
    } else if !valid_currency_chars(trim(s)) {
        Err(BillPaymentsError::InvalidCurrency)
    } else {
        Ok(trim(s).map_values(|b: u8| to_upper(b)))
    }
}

/// The code a currency filter compares against: the normalized code, or
/// `XLM` when the filter itself is not a valid code.
pub open spec fn spec_filter_currency(s: Seq<u8>) -> Seq<u8> {
    match spec_currency(s) {
        Ok(c) => c,
        Err(_) => xlm(),
    }
}

/// An accepted byte of an external reference.
pub open spec fn ext_ref_byte(b: u8) -> bool {
    is_alnum(b) || b == 45 || b == 95 || b == 46 || b == 58
}

/// An accepted external reference.
pub open spec fn valid_external_ref(s: Seq<u8>) -> bool {
    MIN_EXTERNAL_REF_LEN <= s.len() <= MAX_EXTERNAL_REF_LEN && forall|i: int|
        0 <= i < s.len() ==> ext_ref_byte(#[trigger] s[i])
}

proof fn lemma_trim_start_at(s: Seq<u8>, a: int)
    requires
        0 <= a <= s.len(),
        forall|k: int| 0 <= k < a ==> is_space(#[trigger] s[k]),
        a == s.len() || !is_space(s[a]),
    ensures
        trim_start(s) == s.subrange(a, s.len() as int),
    decreases a,
{
    if a == 0 {
        assert(s.subrange(0, s.len() as int) =~= s);
    } else {
        let t = s.drop_first();
        assert forall|k: int| 0 <= k < a - 1 implies is_space(#[trigger] t[k]) by {
            assert(t[k] == s[k + 1]);
        }
        lemma_trim_start_at(t, a - 1);
        assert(t.subrange(a - 1, t.len() as int) =~= s.subrange(a, s.len() as int));
    }
}

proof fn lemma_trim_end_at(s: Seq<u8>, e: int)
    requires
        0 <= e <= s.len(),
        forall|k: int| e <= k < s.len() ==> is_space(#[trigger] s[k]),
        e == 0 || !is_space(s[e - 1]),
    ensures
        trim_end(s) == s.subrange(0, e),
    decreases s.len() - e,
{
    if e == s.len() {
        assert(s.subrange(0, s.len() as int) =~= s);
    } else {
        let t = s.drop_last();
        assert forall|k: int| e <= k < t.len() implies is_space(#[trigger] t[k]) by {
            assert(t[k] == s[k]);
        }
        lemma_trim_end_at(t, e);
        assert(t.subrange(0, e) =~= s.subrange(0, e));
    }
}

/// Whether every byte of a non-empty slice is an ASCII letter.
pub fn is_valid_currency_chars(s: &[u8]) -> (r: bool)
    ensures
        r == valid_currency_chars(s@),
{
    if s.len() == 0 {
        return false;
    }
    let mut i: usize = 0;
    while i < s.len()
        invariant
            i <= s@.len(),
            forall|k: int| 0 <= k < i ==> is_alpha(#[trigger] s@[k]),
        decreases s@.len() - i,
    {
        let b = s[i];
        if !((65 <= b && b <= 90) || (97 <= b && b <= 122)) {
            return false;
        }
        i = i + 1;
    }
    true
}

/// The stored form of `XLM`.
pub fn xlm_code() -> (r: Vec<u8>)
    ensures
        r@ == xlm(),
{
    let mut r: Vec<u8> = Vec::new();
    r.push(88u8);
    r.push(76u8);
    r.push(77u8);
    assert(r@ =~= xlm());
    r
}

/// Validate a currency code and bring it to its stored form.
pub fn validate_and_normalize_currency(currency: &Vec<u8>) -> (r: Result<Vec<u8>, BillPaymentsError>)
    ensures
        match r {
            Ok(c) => spec_currency(currency@) == Ok::<Seq<u8>, BillPaymentsError>(c@),
            Err(e) => spec_currency(currency@) == Err::<Seq<u8>, BillPaymentsError>(e),
        },
{
    let len = currency.len();
    if len == 0 {
        return Ok(xlm_code());
    }
    if len > MAX_CURRENCY_LEN {
        return Err(BillPaymentsError::InvalidCurrency);
    }
    let s = currency.as_slice();
    let mut start: usize = 0;
    while start < len && s[start] == 32u8
        invariant
            len == s@.len(),
            s@ == currency@,
            start <= len,
            forall|k: int| 0 <= k < start ==> is_space(#[trigger] s@[k]),
        decreases len - start,
    {
        start = start + 1;
    }
    proof {
        lemma_trim_start_at(currency@, start as int);
    }
    if start == len {
        assert(trim_start(currency@).len() == 0);
        assert(trim(currency@) == trim_start(currency@));
        return Ok(xlm_code());
    }
    let mut end: usize = len;
    while end > start && s[end - 1] == 32u8
        invariant
            len == s@.len(),
            s@ == currency@,
            start < len,
            !is_space(s@[start as int]),
            start <= end <= len,
            forall|k: int| end <= k < len ==> is_space(#[trigger] s@[k]),
        decreases end,
    {
        end = end - 1;
    }
    let ghost ts = currency@.subrange(start as int, len as int);
    proof {
        assert(end > start);
        assert forall|k: int| end - start <= k < ts.len() implies is_space(#[trigger] ts[k]) by {
            assert(ts[k] == s@[start + k]);
        }
        lemma_trim_end_at(ts, end - start);
        assert(ts.subrange(0, end - start) =~= currency@.subrange(start as int, end as int));
    }
    let mut trimmed: Vec<u8> = Vec::new();
    let mut i: usize = start;
    let mut all_alpha = true;
    while i < end
        invariant
            len == s@.len(),
            s@ == currency@,
            start <= i <= end <= len,
            trimmed@ == currency@.subrange(start as int, i as int).map_values(|b: u8| to_upper(b)),
            all_alpha == forall|k: int| start <= k < i ==> is_alpha(#[trigger] s@[k]),
        decreases end - i,
    {
        let b = s[i];
        if !((65 <= b && b <= 90) || (97 <= b && b <= 122)) {
            all_alpha = false;
        }
        let u: u8 = if 97 <= b && b <= 122 { b - 32 } else { b };
        trimmed.push(u);
        proof {
            assert(currency@.subrange(start as int, i as int + 1).map_values(|b: u8| to_upper(b))
                =~= currency@.subrange(start as int, i as int).map_values(|b: u8| to_upper(b)).push(to_upper(b)));
        }
        i = i + 1;
    }
    let ghost t = currency@.subrange(start as int, end as int);
    assert(trim(currency@) == t);
    if !all_alpha {
        assert(!valid_currency_chars(t)) by {
            let k = choose|k: int| start <= k < end && !is_alpha(#[trigger] s@[k]);
            assert(t[k - start] == s@[k]);
        }
        return Err(BillPaymentsError::InvalidCurrency);
    }
    assert(valid_currency_chars(t)) by {
        assert forall|k: int| 0 <= k < t.len() implies is_alpha(#[trigger] t[k]) by {
            assert(t[k] == s@[start + k]);
        }
    }
    Ok(trimmed)
}

/// The code a currency filter compares against; an invalid filter reads as `XLM`.
pub fn normalize_currency(currency: &Vec<u8>) -> (r: Vec<u8>)
    ensures
        r@ == spec_filter_currency(currency@),
{
    match validate_and_normalize_currency(currency) {
        Ok(c) => c,
        Err(_) => xlm_code(),
    }
}

/// Check an external reference and return it unchanged.
pub fn validate_external_ref(ext_ref: &Vec<u8>) -> (r: Result<Vec<u8>, BillPaymentsError>)
    ensures
        match r {
            Ok(v) => valid_external_ref(ext_ref@) && v@ == ext_ref@,
            Err(e) => !valid_external_ref(ext_ref@) && e == BillPaymentsError::InvalidExternalRef,
        },
{
    let len = ext_ref.len();
    if len < MIN_EXTERNAL_REF_LEN || len > MAX_EXTERNAL_REF_LEN {
        return Err(BillPaymentsError::InvalidExternalRef);
    }
    let mut i: usize = 0;
    while i < len
        invariant
            len == ext_ref@.len(),
            i <= len,
            forall|k: int| 0 <= k < i ==> ext_ref_byte(#[trigger] ext_ref@[k]),
        decreases len - i,
    {
        let b = ext_ref[i];
        let ok = (65 <= b && b <= 90) || (97 <= b && b <= 122) || (48 <= b && b <= 57) || b == 45u8
            || b == 95u8 || b == 46u8 || b == 58u8;
        if !ok {
            return Err(BillPaymentsError::InvalidExternalRef);
        }
        i = i + 1;
    }
    let v = ext_ref.clone();
    assert(v@ =~= ext_ref@);
    Ok(v)
}

/// Check an optional external reference; `None` passes.
pub fn validate_optional_external_ref(ext_ref: &Option<Vec<u8>>) -> (r: Result<Option<Vec<u8>>, BillPaymentsError>)
    ensures
        match ext_ref {
            None => r == Ok::<Option<Vec<u8>>, BillPaymentsError>(None),
            Some(x) => match r {
                Ok(Some(v)) => valid_external_ref(x@) && v@ == x@,
                Ok(None) => false,
                Err(e) => !valid_external_ref(x@) && e == BillPaymentsError::InvalidExternalRef,
            },
        },
{
    match ext_ref {
        None => Ok(None),
        Some(x) => match validate_external_ref(x) {
            Ok(v) => Ok(Some(v)),
            Err(e) => Err(e),
        },
    }
}

} // verus!
