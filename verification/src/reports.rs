//! Reportable items (invoices and tickets) with ids, labels and severities,
//! a generic repository, and the selection of the most severe item.

use vstd::prelude::*;
use crate::numbers::{decimal, decimal_chars_u64, digit_char};
use crate::text::{push_char, push_chars, push_str};

verus! {

broadcast use vstd::string::group_string_axioms;

/// Something that can be listed in a report.
pub trait Reportable {
    /// The id, as a value.
    spec fn id_of(&self) -> u32;

    /// The label, as text.
    spec fn label_of(&self) -> Seq<char>;

    /// The severity, as a value.
    spec fn severity_of(&self) -> u8;

    fn id(&self) -> (i: u32)
        ensures
            i == self.id_of(),
    ;

    fn label(&self) -> (l: String)
        ensures
            l@ == self.label_of(),
    ;

    fn severity(&self) -> (s: u8)
        ensures
            s == self.severity_of(),
    ;
}

/// An invoice; its total is held in cents.
pub struct Invoice {
    pub id: u32,
    pub customer: String,
    pub total_cents: u64,
}

/// A support ticket.
pub struct Ticket {
    pub id: u32,
    pub title: String,
    pub priority: u8,
}

/// An amount of cents written with two decimals, e.g. `149.99`.
pub open spec fn money_text(cents: nat) -> Seq<char> {
    decimal((cents / 100) as int) + seq!['.', digit_char(((cents % 100) / 10) as int), digit_char(
        (cents % 10) as int,
    )]
}

pub(crate) fn push_money(s: &mut String, cents: u64)
    ensures
        final(s)@ == old(s)@ + money_text(cents as nat),
{
    let whole = decimal_chars_u64(cents / 100);
    push_chars(s, &whole);
    push_char(s, '.');
    let tens: u8 = ((cents % 100) / 10) as u8;
    let ones: u8 = (cents % 10) as u8;
    push_char(s, (48u8 + tens) as char);
    push_char(s, (48u8 + ones) as char);
}

/// Totals above 10,000.00 are the severe ones.
pub open spec fn invoice_severity(total_cents: u64) -> u8 {
    if total_cents > 1_000_000 {
        9
    } else {
        4
    }
}

impl Reportable for Invoice {
    open spec fn id_of(&self) -> u32 {
        self.id
    }

    open spec fn label_of(&self) -> Seq<char> {
        "Invoice for "@ + self.customer@ + " ($"@ + money_text(self.total_cents as nat) + ")"@
    }

    open spec fn severity_of(&self) -> u8 {
        invoice_severity(self.total_cents)
    }

    fn id(&self) -> (i: u32) {
        self.id
    }

    fn label(&self) -> (l: String) {
        let mut l = "Invoice for ".to_owned();
        push_str(&mut l, self.customer.as_str());
        push_str(&mut l, " ($");
        push_money(&mut l, self.total_cents);
        push_str(&mut l, ")");
        l
    }

    fn severity(&self) -> (s: u8) {
        if self.total_cents > 1_000_000 {
            9
        } else {
            4
        }
    }
}

impl Reportable for Ticket {
    open spec fn id_of(&self) -> u32 {
        self.id
    }

    open spec fn label_of(&self) -> Seq<char> {
        "Ticket: "@ + self.title@
    }

    open spec fn severity_of(&self) -> u8 {
        self.priority
    }

    fn id(&self) -> (i: u32) {
        self.id
    }

    fn label(&self) -> (l: String) {
        let mut l = "Ticket: ".to_owned();
        push_str(&mut l, self.title.as_str());
        l
    }

    fn severity(&self) -> (s: u8) {
        self.priority
    }
}

impl Invoice {
    /// How an invoice is shown: `Invoice 1 — Acme Corp ($500.00)`.
    pub fn display_text(&self) -> (t: String)
        ensures
            t@ == "Invoice "@ + decimal(self.id as int) + " — "@ + self.customer@ + " ($"@
                + money_text(self.total_cents as nat) + ")"@,
    {
        let mut t = "Invoice ".to_owned();
        let digits = decimal_chars_u64(self.id as u64);
        push_chars(&mut t, &digits);
        push_str(&mut t, " — ");
        push_str(&mut t, self.customer.as_str());
        push_str(&mut t, " ($");
        push_money(&mut t, self.total_cents);
        push_str(&mut t, ")");
        t
    }
}

impl Ticket {
    /// How a ticket is shown: `Ticket 101 — Login broken [P8]`.
    pub fn display_text(&self) -> (t: String)
        ensures
            t@ == "Ticket "@ + decimal(self.id as int) + " — "@ + self.title@ + " [P"@ + decimal(
                self.priority as int,
            ) + "]"@,
    {
        let mut t = "Ticket ".to_owned();
        let digits = decimal_chars_u64(self.id as u64);
        push_chars(&mut t, &digits);
        push_str(&mut t, " — ");
        push_str(&mut t, self.title.as_str());
        push_str(&mut t, " [P");
        let p = decimal_chars_u64(self.priority as u64);
        push_chars(&mut t, &p);
        push_str(&mut t, "]");
        t
    }
}

/// The line a report prints for an item: `#id [severity] label`.
pub open spec fn report_line<T: Reportable>(item: &T) -> Seq<char> {
    "#"@ + decimal(item.id_of() as int) + " ["@ + decimal(item.severity_of() as int) + "] "@
        + item.label_of()
}

/// Formats one item as `#id [severity] label`.
pub fn format_line<T: Reportable>(item: &T) -> (line: String)
    ensures
        line@ == report_line(item),
{
    let mut line = "#".to_owned();
    let id = decimal_chars_u64(item.id() as u64);
    push_chars(&mut line, &id);
    push_str(&mut line, " [");
    let sev = decimal_chars_u64(item.severity() as u64);
    push_chars(&mut line, &sev);
    push_str(&mut line, "] ");
    let label = item.label();
    push_str(&mut line, label.as_str());
    line
}

/// Formats every item, in order.
pub fn format_all<T: Reportable>(items: &[T]) -> (lines: Vec<String>)
    ensures
        lines@.len() == items@.len(),
        forall|i: int| 0 <= i < items@.len() ==> #[trigger] lines@[i]@ == report_line(&items@[i]),
{
    let mut lines: Vec<String> = Vec::new();
    let mut i: usize = 0;
    while i < items.len()
        invariant
            i <= items@.len(),
            lines@.len() == i,
            forall|j: int| 0 <= j < i ==> #[trigger] lines@[j]@ == report_line(&items@[j]),
        decreases items@.len() - i,
    {
        lines.push(format_line(&items[i]));
        i = i + 1;
    }
    lines
}

/// `items[i]` has the highest severity, and every later item a lower one:
/// the item `max_by_key` picks.
pub open spec fn is_last_most_severe<T: Reportable>(items: Seq<T>, i: int) -> bool {
    &&& 0 <= i < items.len()
    &&& forall|j: int| 0 <= j < items.len() ==> items[j].severity_of() <= items[i].severity_of()
    &&& forall|j: int| i < j < items.len() ==> items[j].severity_of() < items[i].severity_of()
}

/// The most severe item; among equally severe ones, the last.
pub fn highest_severity<T: Reportable>(items: &[T]) -> (top: Option<&T>)
    ensures
        items@.len() == 0 ==> top is None,
        items@.len() > 0 ==> exists|i: int| is_last_most_severe(items@, i) && top == Some(&items@[i]),
{
    if items.len() == 0 {
        return None;
    }
    let mut best: usize = 0;
    let mut best_sev = items[0].severity();
    let mut i: usize = 1;
    while i < items.len()
        invariant
            1 <= i <= items@.len(),
            best < i,
            best_sev == items@[best as int].severity_of(),
            forall|j: int| 0 <= j < i ==> items@[j].severity_of() <= best_sev,
            forall|j: int| best < j < i ==> items@[j].severity_of() < best_sev,
        decreases items@.len() - i,
    {
        let s = items[i].severity();
        if s >= best_sev {
            best = i;
            best_sev = s;
        }
        i = i + 1;
    }
    assert(is_last_most_severe(items@, best as int));
    Some(&items[best])
}

/// The invoice used to show a returned reportable value.
pub fn example_high_value_invoice() -> (inv: Invoice)
    ensures
        inv.id == 99,
        inv.customer@ == "Stretch Co"@,
        inv.total_cents == 2_000_000,
{
    Invoice { id: 99, customer: "Stretch Co".to_owned(), total_cents: 2_000_000 }
}

/// A list of items kept in insertion order.
#[derive(Debug)]
pub struct Repository<T> {
    items: Vec<T>,
}

impl<T> View for Repository<T> {
    type V = Seq<T>;

    closed spec fn view(&self) -> Seq<T> {
        self.items@
    }
}

impl<T> Repository<T> {
    /// An empty repository.
    pub fn new() -> (r: Self)
        ensures
            r@ == Seq::<T>::empty(),
    {
        Repository { items: Vec::new() }
    }

    /// Appends an item.
    pub fn add(&mut self, item: T)
        ensures
            final(self)@ == old(self)@.push(item),
    {
        self.items.push(item);
    }

    /// The items, in insertion order.
    pub fn as_slice(&self) -> (s: &[T])
        ensures
            s@ == self@,
    {
        self.items.as_slice()
    }

    /// Number of items.
    pub fn len(&self) -> (n: usize)
        ensures
            n == self@.len(),
    {
        self.items.len()
    }
}

impl<T: Reportable> Repository<T> {
    /// The most severe item; among equally severe ones, the last added.
    pub fn highest_severity_item(&self) -> (top: Option<&T>)
        ensures
            self@.len() == 0 ==> top is None,
            self@.len() > 0 ==> exists|i: int| is_last_most_severe(self@, i) && top == Some(&self@[i]),
    {
        highest_severity(self.as_slice())
    }
}

/// At most one item is the last most severe, so the choice is determined
/// by the items alone.
pub proof fn law_last_most_severe_is_unique<T: Reportable>(items: Seq<T>, i: int, j: int)
    requires
        is_last_most_severe(items, i),
        is_last_most_severe(items, j),
    ensures
        i == j,
{
    if i < j {
        assert(items[j].severity_of() < items[i].severity_of());
        assert(items[i].severity_of() <= items[j].severity_of());
    } else if j < i {
        assert(items[i].severity_of() < items[j].severity_of());
        assert(items[j].severity_of() <= items[i].severity_of());
    }
}

} // verus!
