//! The primality service: each request line names a method and a number,
//! and the answer says whether the number is prime.
use vstd::prelude::*;
use crate::text::str_equal;

verus! {

/// `n` is a prime number: at least 2, with no divisor strictly between 1 and `n`.
pub open spec fn is_prime(n: int) -> bool {
    &&& n >= 2
    &&& forall|d: int| 2 <= d < n ==> #[trigger] (n % d) != 0
}

/// A composite `n` has a divisor `d` with `d * d <= n`: the smaller of the two factors.
proof fn lemma_small_divisor(n: int, d: int)
    requires
        2 <= d < n,
        n % d == 0,
    ensures
        exists|e: int| 2 <= e && e * e <= n && #[trigger] (n % e) == 0,
{
    let q = n / d;
    assert(n == d * q) by (nonlinear_arith)
        requires n % d == 0, d > 0, q == n / d;
    assert(q >= 2) by (nonlinear_arith)
        requires n == d * q, d < n, d >= 2;
    assert(n % q == 0) by (nonlinear_arith)
        requires n == d * q, q >= 2;
    if d <= q {
        assert(d * d <= n) by (nonlinear_arith)
            requires n == d * q, d <= q, d >= 2;
        assert(n % d == 0);
    } else {
        assert(q * q <= n) by (nonlinear_arith)
            requires n == d * q, q < d, q >= 2;
        assert(n % q == 0);
    }
}

/// Trial division up to the square root of `n`.
pub fn is_prime_u64(n: u64) -> (r: bool)
    ensures
        r == is_prime(n as int),
{
    if n < 2 {
        return false;
    }
    let mut i: u64 = 2;
    while i <= n / i
        invariant
            2 <= i,
            n >= 2,
            forall|d: int| 2 <= d < i ==> #[trigger] ((n as int) % d) != 0,
        decreases n - i,
    {
        if n % i == 0 {
            assert(i < n) by (nonlinear_arith)
                requires i <= n / i, i >= 2, n >= 2;
            return false;
        }
        assert(i < n) by (nonlinear_arith)
            requires i <= n / i, i >= 2, n >= 2;
        i = i + 1;
    }
    assert(i * i > n) by (nonlinear_arith)
        requires i > n / i, i >= 2;
    assert forall|d: int| 2 <= d < n implies #[trigger] ((n as int) % d) != 0 by {
        if (n as int) % d == 0 {
            lemma_small_divisor(n as int, d);
            let e = choose|e: int| 2 <= e && e * e <= n && #[trigger] ((n as int) % e) == 0;
            assert(e < i) by (nonlinear_arith)
                requires e * e <= n, i * i > n, e >= 2, i >= 2;
        }
    }
    true
}

/// The only method the service answers.
pub const METHOD: &'static str = "isPrime";

/// The number of a request, as far as primality can tell it apart.
#[derive(Clone, Copy, Debug)]
pub enum Number {
    /// A value with a fractional part.
    Fractional,
    /// An integral value below zero.
    Negative,
    /// An integral value from 0 to `u64::MAX`.
    Whole(u64),
    /// An integral value of 2^64 or more. A double that large is a multiple
    /// of 2^12, so it is never prime.
    Huge,
}

/// A request line that parsed: its method and its number.
#[derive(Debug)]
pub struct Request {
    pub method: String,
    pub number: Number,
}

/// The service's answer to one line.
#[derive(Clone, Copy, Debug)]
pub enum Verdict {
    Prime,
    NotPrime,
    /// The line did not parse or named another method; the connection is
    /// closed after this answer.
    Malformed,
}

/// The number is a prime.
pub open spec fn number_is_prime(n: Number) -> bool {
    match n {
        Number::Whole(m) => is_prime(m as int),
        _ => false,
    }
}

/// The answer to a line: `None` stands for a line that did not parse.
pub open spec fn verdict_for(request: Option<Request>) -> Verdict {
    match request {
        None => Verdict::Malformed,
        Some(r) => if r.method@ != METHOD@ {
            Verdict::Malformed
        } else if number_is_prime(r.number) {
            Verdict::Prime
        } else {
            Verdict::NotPrime
        },
    }
}

/// Answers one line; `None` stands for a line that did not parse.
pub fn answer(request: Option<&Request>) -> (v: Verdict)
    ensures
        v == verdict_for(match request {
            Some(r) => Some(*r),
            None => None,
        }),
{
    match request {
        None => Verdict::Malformed,
        Some(r) => {
            if !str_equal(r.method.as_str(), METHOD) {
                return Verdict::Malformed;
            }
            match r.number {
                Number::Whole(m) => if is_prime_u64(m) {
                    Verdict::Prime
                } else {
                    Verdict::NotPrime
                },
                _ => Verdict::NotPrime,
            }
        },
    }
}

impl Verdict {
    /// The line written back for this answer.
    pub fn reply(&self) -> (r: String)
        ensures
            *self is Prime ==> r@ == "{\"method\": \"isPrime\", \"prime\": true}\n"@,
            *self is NotPrime ==> r@ == "{\"method\": \"isPrime\", \"prime\": false}\n"@,
            *self is Malformed ==> r@ == "{\"method\": \"malformed\", \"prime\": false}\n"@,
    {
        match self {
            Verdict::Prime => String::from_str("{\"method\": \"isPrime\", \"prime\": true}\n"),
            Verdict::NotPrime => String::from_str("{\"method\": \"isPrime\", \"prime\": false}\n"),
            Verdict::Malformed => String::from_str("{\"method\": \"malformed\", \"prime\": false}\n"),
        }
    }

    /// Whether the connection is closed after this answer.
    pub fn closes(&self) -> (r: bool)
        ensures
            r == (*self is Malformed),
    {
        match self {
            Verdict::Malformed => true,
            _ => false,
        }
    }
}

} // verus!
