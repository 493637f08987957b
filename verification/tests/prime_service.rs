use protohackers::prime::{answer, is_prime_u64, Number, Request, Verdict};

fn request(method: &str, number: Number) -> Request {
    Request { method: method.to_string(), number }
}

#[test]
fn small_primes_and_composites() {
    let primes: Vec<u64> = (0..60).filter(|n| is_prime_u64(*n)).collect();
    assert_eq!(primes, vec![2, 3, 5, 7, 11, 13, 17, 19, 23, 29, 31, 37, 41, 43, 47, 53, 59]);
}

#[test]
fn squares_of_primes_are_not_prime() {
    assert!(!is_prime_u64(4));
    assert!(!is_prime_u64(9));
    assert!(!is_prime_u64(25));
    assert!(!is_prime_u64(49));
    assert!(!is_prime_u64(10_007 * 10_007));
}

#[test]
fn large_values() {
    assert!(is_prime_u64(1_000_000_007));
    assert!(is_prime_u64(2_147_483_647));
    assert!(!is_prime_u64(1_000_000_007 * 3));
    assert!(!is_prime_u64(u64::MAX));
}

#[test]
fn answers_prime_whole_numbers() {
    assert!(matches!(answer(Some(&request("isPrime", Number::Whole(7)))), Verdict::Prime));
    assert!(matches!(answer(Some(&request("isPrime", Number::Whole(2)))), Verdict::Prime));
    assert!(matches!(answer(Some(&request("isPrime", Number::Whole(1)))), Verdict::NotPrime));
    assert!(matches!(answer(Some(&request("isPrime", Number::Whole(0)))), Verdict::NotPrime));
    assert!(matches!(answer(Some(&request("isPrime", Number::Whole(91)))), Verdict::NotPrime));
}

#[test]
fn other_numbers_are_not_prime() {
    assert!(matches!(answer(Some(&request("isPrime", Number::Fractional))), Verdict::NotPrime));
    assert!(matches!(answer(Some(&request("isPrime", Number::Negative))), Verdict::NotPrime));
    assert!(matches!(answer(Some(&request("isPrime", Number::Huge))), Verdict::NotPrime));
}

#[test]
fn malformed_requests() {
    assert!(matches!(answer(None), Verdict::Malformed));
    assert!(matches!(answer(Some(&request("isprime", Number::Whole(7)))), Verdict::Malformed));
    assert!(matches!(answer(Some(&request("", Number::Whole(7)))), Verdict::Malformed));
}

#[test]
fn reply_lines() {
    assert_eq!(Verdict::Prime.reply(), "{\"method\": \"isPrime\", \"prime\": true}\n");
    assert_eq!(Verdict::NotPrime.reply(), "{\"method\": \"isPrime\", \"prime\": false}\n");
    assert_eq!(Verdict::Malformed.reply(), "{\"method\": \"malformed\", \"prime\": false}\n");
    assert!(Verdict::Malformed.closes());
    assert!(!Verdict::Prime.closes());
    assert!(!Verdict::NotPrime.closes());
}
