use rust_days::calculator::{continue_choice, operator_choice};
use rust_days::editor::{menu_choice, MenuChoice};
use rust_days::orders::{parse_command, Order, OrderCommand, OrderState};
use rust_days::parsing::{prompt_command, split_command, PromptCommand};

#[test]
fn operator_choice_reads_first_character() {
    assert_eq!(operator_choice("+\n"), Some('+'));
    assert_eq!(operator_choice("  / "), Some('/'));
    assert_eq!(operator_choice("*x"), Some('*'));
    assert_eq!(operator_choice("x+"), None);
    assert_eq!(operator_choice("   \n"), None);
    assert_eq!(operator_choice(""), None);
}

#[test]
fn continue_choice_accepts_yes_and_no() {
    assert_eq!(continue_choice("y\n"), Some(true));
    assert_eq!(continue_choice(" YES "), Some(true));
    assert_eq!(continue_choice("n"), Some(false));
    assert_eq!(continue_choice("No\n"), Some(false));
    assert_eq!(continue_choice("maybe"), None);
    assert_eq!(continue_choice(""), None);
}

#[test]
fn menu_choice_entries() {
    assert!(matches!(menu_choice(" 1 "), MenuChoice::ShowLength));
    assert!(matches!(menu_choice("2"), MenuChoice::WordCount));
    assert!(matches!(menu_choice("3\n"), MenuChoice::AppendSuffix));
    assert!(matches!(menu_choice("4"), MenuChoice::UppercasePreview));
    assert!(matches!(menu_choice("5"), MenuChoice::Exit));
    assert!(matches!(menu_choice("6"), MenuChoice::Invalid));
    assert!(matches!(menu_choice("1 2"), MenuChoice::Invalid));
}

#[test]
fn order_commands_ignore_case_and_spaces() {
    assert!(matches!(parse_command("confirm"), OrderCommand::Confirm));
    assert!(matches!(parse_command(" PAY \n"), OrderCommand::Pay));
    assert!(matches!(parse_command("Ship"), OrderCommand::Ship));
    assert!(matches!(parse_command("deliver"), OrderCommand::Deliver));
    assert!(matches!(parse_command("cancel"), OrderCommand::Cancel));
    assert!(matches!(parse_command("QUIT"), OrderCommand::Quit));
    assert!(matches!(parse_command("refund"), OrderCommand::Unknown));
}

#[test]
fn order_status_line() {
    let mut order = Order { id: 1001, customer: "Alice".to_string(), total_cents: 14_999, state: OrderState::Draft };
    assert_eq!(order.status_line(), "Order #1001 | Customer: Alice | Total: 149.99 | State: Draft");
    order.cancel("changed mind".to_string()).unwrap();
    assert_eq!(
        order.status_line(),
        "Order #1001 | Customer: Alice | Total: 149.99 | State: Cancelled (changed mind)"
    );
    let free = Order { id: 7, customer: "B".to_string(), total_cents: 5, state: OrderState::Paid };
    assert_eq!(free.status_line(), "Order #7 | Customer: B | Total: 0.05 | State: Paid");
}

#[test]
fn split_command_at_first_whitespace() {
    assert_eq!(split_command("u32 42"), ("u32".to_string(), "42".to_string()));
    assert_eq!(split_command("hex  0x2A"), ("hex".to_string(), " 0x2A".to_string()));
    assert_eq!(split_command("bool"), ("bool".to_string(), String::new()));
    assert_eq!(split_command("i64\t-5 x"), ("i64".to_string(), "-5 x".to_string()));
    assert_eq!(split_command(""), (String::new(), String::new()));
}

#[test]
fn prompt_command_names() {
    assert!(matches!(prompt_command("u32"), PromptCommand::U32));
    assert!(matches!(prompt_command("i64"), PromptCommand::I64));
    assert!(matches!(prompt_command("f64"), PromptCommand::F64));
    assert!(matches!(prompt_command("bool"), PromptCommand::Bool));
    assert!(matches!(prompt_command("opti32"), PromptCommand::OptI32));
    assert!(matches!(prompt_command("hex"), PromptCommand::Hex));
    assert!(matches!(prompt_command("U32"), PromptCommand::Unknown));
}
