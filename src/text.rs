use vstd::prelude::*;

verus! {

/// The character of a decimal digit `d < 10`.
pub open spec fn digit_char(d: nat) -> char {
    seq!['0', '1', '2', '3', '4', '5', '6', '7', '8', '9'][d as int]
}

/// The decimal digits of `n`, most significant first, without padding.
pub open spec fn decimal_chars(n: nat) -> Seq<char>
    decreases n,
{
    if n < 10 {
        seq![digit_char(n)]
    } else {
        decimal_chars(n / 10).push(digit_char(n % 10))
    }
}

/// The path under which the proof artifact of the block at `height` is served.
pub open spec fn proof_url_spec(height: nat) -> Seq<char> {
    "/v1/blocks/"@ + decimal_chars(height) + "/proof"@
}

/// Relies on `ToString` for `u32`, which writes the value in decimal with no
/// sign and no padding.
#[verifier::external_body]
pub fn decimal_string(n: u32) -> (r: String)
    ensures
        r@ == decimal_chars(n as nat),
{
    n.to_string()
}

/// The proof path of the block at `height`.
pub fn proof_url(height: u32) -> (r: String)
    ensures
        r@ == proof_url_spec(height as nat),
{
    let digits = decimal_string(height);
    let r = String::from_str("/v1/blocks/").concat(digits.as_str()).concat("/proof");
    proof {
        reveal_strlit("/v1/blocks/");
        reveal_strlit("/proof");
    }
    r
}

} // verus!
