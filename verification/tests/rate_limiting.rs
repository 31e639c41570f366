use git_repo_analyzer::rate_limiter::{refusal_message, RateLimiter};

const SECOND: u128 = 1_000_000_000;

#[test]
fn five_per_window() {
    let mut l = RateLimiter::new(5, 600);
    for i in 0..5u128 {
        assert_eq!(l.remaining_at("1.2.3.4", i * SECOND), 5 - i as usize);
        assert!(l.check_at("1.2.3.4", i * SECOND));
    }
    assert_eq!(l.remaining_at("1.2.3.4", 5 * SECOND), 0);
    assert!(!l.check_at("1.2.3.4", 5 * SECOND));
    assert!(l.check_at("5.6.7.8", 5 * SECOND));
    assert_eq!(l.remaining_at("1.2.3.4", 600 * SECOND), 1);
    assert!(l.check_at("1.2.3.4", 600 * SECOND));
    assert!(!l.check_at("1.2.3.4", 600 * SECOND));
}

#[test]
fn unknown_client_has_full_allowance() {
    let l = RateLimiter::new(3, 10);
    assert_eq!(l.remaining_at("x", 0), 3);
    assert_eq!(l.remaining("x"), 3);
}

#[test]
fn zero_window_never_counts() {
    let mut l = RateLimiter::new(1, 0);
    assert!(l.check_at("x", 7));
    assert!(l.check_at("x", 7));
    assert_eq!(l.remaining_at("x", 7), 1);
}

#[test]
fn zero_limit_refuses() {
    let mut l = RateLimiter::new(0, 60);
    assert!(!l.check("x"));
    assert_eq!(l.remaining("x"), 0);
}

#[test]
fn live_clock() {
    let mut l = RateLimiter::new(2, 600);
    assert!(l.check("c"));
    assert_eq!(l.remaining("c"), 1);
    assert!(l.check("c"));
    assert!(!l.check("c"));
    assert_eq!(l.remaining("c"), 0);
}

#[test]
fn refusal_text() {
    assert_eq!(
        refusal_message(0),
        "Demasiadas solicitudes. Has alcanzado el límite. Solicitudes restantes: 0. Intenta de nuevo en unos minutos."
    );
}

#[test]
fn comparison_costs_two() {
    let mut l = RateLimiter::new(5, 600);
    assert!(l.check_cost_at("ip", 2, 0));
    assert_eq!(l.remaining_at("ip", 0), 3);
    assert!(l.check_cost_at("ip", 2, SECOND));
    assert_eq!(l.remaining_at("ip", SECOND), 1);
    assert!(!l.check_cost_at("ip", 2, 2 * SECOND));
    assert_eq!(l.remaining_at("ip", 2 * SECOND), 1);
    assert!(l.check_cost_at("ip", 1, 2 * SECOND));
    assert_eq!(l.remaining_at("ip", 2 * SECOND), 0);
    assert!(!l.check_cost_at("other", 6, 0));
    assert_eq!(l.remaining_at("other", 0), 5);
}

#[test]
fn live_clock_with_cost() {
    let mut l = RateLimiter::new(3, 600);
    let now = l.now();
    assert!(l.check_cost("c", 2));
    assert!(!l.check_cost("c", 2));
    assert!(l.remaining_at("c", now) <= 1);
}
