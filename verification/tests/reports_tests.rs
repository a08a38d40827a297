use rust_days::catalog::{are_equal, last, swap_pair, Book, Describe, Movie};
use rust_days::reports::{
    example_high_value_invoice, format_all, format_line, highest_severity, Invoice, Repository,
    Reportable, Ticket,
};

#[test]
fn highest_severity_invoice_picks_higher_severity_band() {
    let items = [
        Invoice { id: 1, customer: String::from("Low"), total_cents: 10_000 },
        Invoice { id: 2, customer: String::from("High"), total_cents: 1_500_000 },
    ];
    let top = highest_severity(&items).expect("non-empty");
    assert_eq!(top.id, 2);
    assert_eq!(top.severity(), 9);
}

#[test]
fn highest_severity_ticket_picks_max_priority() {
    let items = [
        Ticket { id: 10, title: String::from("Minor"), priority: 1 },
        Ticket { id: 20, title: String::from("Urgent"), priority: 9 },
        Ticket { id: 30, title: String::from("Medium"), priority: 5 },
    ];
    let top = highest_severity(&items).expect("non-empty");
    assert_eq!(top.id, 20);
    assert_eq!(top.severity(), 9);
}

#[test]
fn repository_highest_severity_delegates() {
    let mut repo = Repository::new();
    repo.add(Ticket { id: 1, title: String::from("a"), priority: 2 });
    repo.add(Ticket { id: 2, title: String::from("b"), priority: 7 });
    let top = repo.highest_severity_item().expect("non-empty");
    assert_eq!(top.id, 2);
}

#[test]
fn lines_labels_and_ties() {
    let inv = Invoice { id: 1, customer: String::from("Acme Corp"), total_cents: 50_000 };
    assert_eq!(inv.label(), "Invoice for Acme Corp ($500.00)");
    assert_eq!(format_line(&inv), "#1 [4] Invoice for Acme Corp ($500.00)");
    assert_eq!(inv.display_text(), "Invoice 1 — Acme Corp ($500.00)");
    let t = Ticket { id: 101, title: String::from("Login broken"), priority: 8 };
    assert_eq!(format_line(&t), "#101 [8] Ticket: Login broken");
    assert_eq!(t.display_text(), "Ticket 101 — Login broken [P8]");
    let tied = [
        Ticket { id: 1, title: String::from("x"), priority: 3 },
        Ticket { id: 2, title: String::from("y"), priority: 3 },
    ];
    assert_eq!(highest_severity(&tied).expect("non-empty").id, 2);
    assert!(highest_severity::<Ticket>(&[]).is_none());
    assert_eq!(format_all(&tied), vec!["#1 [3] Ticket: x", "#2 [3] Ticket: y"]);
    let stretch = example_high_value_invoice();
    assert_eq!(stretch.severity(), 9);
    assert_eq!(stretch.label(), "Invoice for Stretch Co ($20000.00)");
    let small = Invoice { id: 3, customer: String::from("Dyn LLC"), total_cents: 9_905 };
    assert_eq!(small.label(), "Invoice for Dyn LLC ($99.05)");
    let edge = Invoice { id: 4, customer: String::from("E"), total_cents: 1_000_000 };
    assert_eq!(edge.severity(), 4);
    let mut repo: Repository<Invoice> = Repository::new();
    assert_eq!(repo.len(), 0);
    repo.add(edge);
    assert_eq!(repo.len(), 1);
    assert_eq!(repo.as_slice()[0].id, 4);
}

#[test]
fn describe_and_generics() {
    let book = Book { title: String::from("Rust in Action"), pages: 400 };
    let movie = Movie { title: String::from("Rustacean Story"), duration_min: 120 };
    assert_eq!(book.describe(), "Book 'Rust in Action' has 400 pages.");
    assert_eq!(book.short(), "Book 'Rust in Action' has 400 pa...");
    assert_eq!(movie.describe(), "Movie 'Rustacean Story' runs for 120 minutes.");
    assert_eq!(movie.short(), "Rustacean Story (120 min)");
    let tiny = Book { title: String::from("Go"), pages: 1 };
    assert_eq!(tiny.short(), "Book 'Go' has 1 pages.");
    assert_eq!(last(&[10, 20, 30]), Some(&30));
    assert_eq!(last::<i32>(&[]), None);
    assert_eq!(swap_pair("left", "right"), ("right", "left"));
    assert!(are_equal(&42, &42));
    assert!(!are_equal(&10, &20));
    assert!(are_equal(&"rust", &"rust"));
}
