use rust_days::orders::{Order, OrderState};

fn sample_order() -> Order {
    Order {
        id: 1,
        customer: "Test".to_string(),
        total_cents: 1000,
        state: OrderState::Draft,
    }
}

#[test]
fn confirm_from_draft_succeeds() {
    let mut order = sample_order();
    assert!(order.confirm().is_ok());
    assert!(matches!(order.state, OrderState::Confirmed));
}

#[test]
fn pay_from_confirmed_succeeds() {
    let mut order = sample_order();
    order.confirm().unwrap();
    assert!(order.pay().is_ok());
    assert!(matches!(order.state, OrderState::Paid));
}

#[test]
fn ship_from_paid_succeeds() {
    let mut order = sample_order();
    order.confirm().unwrap();
    order.pay().unwrap();
    assert!(order.ship().is_ok());
    assert!(matches!(order.state, OrderState::Shipped));
}

#[test]
fn deliver_from_shipped_succeeds() {
    let mut order = sample_order();
    order.confirm().unwrap();
    order.pay().unwrap();
    order.ship().unwrap();
    assert!(order.deliver().is_ok());
    assert!(matches!(order.state, OrderState::Delivered));
}

#[test]
fn cancel_from_draft_succeeds() {
    let mut order = sample_order();
    assert!(order.cancel("changed mind".to_string()).is_ok());
    assert!(matches!(order.state, OrderState::Cancelled(_)));
}

#[test]
fn cancel_from_confirmed_succeeds() {
    let mut order = sample_order();
    order.confirm().unwrap();
    assert!(order.cancel("stock issue".to_string()).is_ok());
    assert!(matches!(order.state, OrderState::Cancelled(_)));
}

#[test]
fn cancel_from_paid_fails() {
    let mut order = sample_order();
    order.confirm().unwrap();
    order.pay().unwrap();
    assert!(order.cancel("too late".to_string()).is_err());
    assert!(matches!(order.state, OrderState::Paid));
}

#[test]
fn duplicate_confirm_fails() {
    let mut order = sample_order();
    order.confirm().unwrap();
    assert!(order.confirm().is_err());
    assert!(matches!(order.state, OrderState::Confirmed));
}

#[test]
fn refusals_carry_their_messages_and_keep_state() {
    let mut order = sample_order();
    assert_eq!(order.pay().unwrap_err(), "Only confirmed orders can be paid");
    assert_eq!(order.ship().unwrap_err(), "Only paid orders can be shipped");
    assert_eq!(order.deliver().unwrap_err(), "Only shipped orders can be delivered");
    assert!(matches!(order.state, OrderState::Draft));
    order.cancel("x".to_string()).unwrap();
    assert_eq!(order.confirm().unwrap_err(), "Only draft orders can be confirmed");
    assert_eq!(
        order.cancel("again".to_string()).unwrap_err(),
        "Order cannot be cancelled in current state"
    );
    assert_eq!(order.state.display_text(), "Cancelled (x)");
    assert_eq!(order.total_cents, 1000);
}

#[test]
fn delivered_orders_are_final() {
    let mut order = sample_order();
    order.confirm().unwrap();
    order.pay().unwrap();
    order.ship().unwrap();
    order.deliver().unwrap();
    assert!(order.confirm().is_err());
    assert!(order.pay().is_err());
    assert!(order.ship().is_err());
    assert!(order.deliver().is_err());
    assert!(order.cancel("late".to_string()).is_err());
    assert_eq!(order.state.display_text(), "Delivered");
}
