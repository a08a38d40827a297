//! An order that moves through a fixed lifecycle:
//! Draft -> Confirmed -> Paid -> Shipped -> Delivered, with cancellation
//! allowed only while the order is a draft or confirmed.

use vstd::prelude::*;
use crate::numbers::{decimal, decimal_chars_u64};
use crate::reports::{money_text, push_money};
use crate::text::{lowered, push_char, push_chars, push_str, same_text, to_lowercase_str, trim, trim_str};

verus! {

broadcast use vstd::string::group_string_axioms;

/// Where an order stands in its lifecycle.
pub enum OrderState {
    Draft,
    Confirmed,
    Paid,
    Shipped,
    Delivered,
    Cancelled(String),
}

/// An order; its total is held in cents.
pub struct Order {
    pub id: u32,
    pub customer: String,
    pub total_cents: u64,
    pub state: OrderState,
}

/// The actions a user can take on an order.
pub enum Action {
    Confirm,
    Pay,
    Ship,
    Deliver,
    Cancel(Seq<char>),
}

/// The state an action leads to, or `None` when the current state refuses it.
pub open spec fn step(s: OrderState, a: Action) -> Option<OrderState> {
    match (s, a) {
        (OrderState::Draft, Action::Confirm) => Some(OrderState::Confirmed),
        (OrderState::Confirmed, Action::Pay) => Some(OrderState::Paid),
        (OrderState::Paid, Action::Ship) => Some(OrderState::Shipped),
        (OrderState::Shipped, Action::Deliver) => Some(OrderState::Delivered),
        (OrderState::Draft, Action::Cancel(_)) => Some(s),
        (OrderState::Confirmed, Action::Cancel(_)) => Some(s),
        _ => None,
    }
}

/// A cancellation was accepted when the new state is `Cancelled` with the
/// given reason; `step` keeps the old state there, this names the result.
pub open spec fn after(s: OrderState, a: Action, reason_state: OrderState) -> bool {
    match step(s, a) {
        Some(t) => match a {
            Action::Cancel(r) => reason_state matches OrderState::Cancelled(x) && x@ == r,
            _ => reason_state == t,
        },
        None => reason_state == s,
    }
}

pub open spec fn confirm_error() -> Seq<char> {
    "Only draft orders can be confirmed"@
}

pub open spec fn pay_error() -> Seq<char> {
    "Only confirmed orders can be paid"@
}

pub open spec fn ship_error() -> Seq<char> {
    "Only paid orders can be shipped"@
}

pub open spec fn deliver_error() -> Seq<char> {
    "Only shipped orders can be delivered"@
}

pub open spec fn cancel_error() -> Seq<char> {
    "Order cannot be cancelled in current state"@
}

/// The text shown for a state.
pub open spec fn state_text(s: OrderState) -> Seq<char> {
    match s {
        OrderState::Draft => "Draft"@,
        OrderState::Confirmed => "Confirmed"@,
        OrderState::Paid => "Paid"@,
        OrderState::Shipped => "Shipped"@,
        OrderState::Delivered => "Delivered"@,
        OrderState::Cancelled(reason) => "Cancelled ("@ + reason@ + ")"@,
    }
}

impl OrderState {
    /// The state as shown to a user, e.g. `Cancelled (changed mind)`.
    pub fn display_text(&self) -> (t: String)
        ensures
            t@ == state_text(*self),
    {
        match self {
            OrderState::Draft => "Draft".to_owned(),
            OrderState::Confirmed => "Confirmed".to_owned(),
            OrderState::Paid => "Paid".to_owned(),
            OrderState::Shipped => "Shipped".to_owned(),
            OrderState::Delivered => "Delivered".to_owned(),
            OrderState::Cancelled(reason) => {
                let mut t = "Cancelled (".to_owned();
                push_str(&mut t, reason.as_str());
                push_char(&mut t, ')');
                assert(")"@ =~= seq![')']) by {
                    reveal_strlit(")");
                }
                t
            },
        }
    }
}

impl Order {
    /// Draft -> Confirmed; any other state refuses and stays as it was.
    pub fn confirm(&mut self) -> (r: Result<(), String>)
        ensures
            final(self).id == old(self).id,
            final(self).customer == old(self).customer,
            final(self).total_cents == old(self).total_cents,
            after(old(self).state, Action::Confirm, final(self).state),
            match r {
                Ok(()) => step(old(self).state, Action::Confirm) is Some,
                Err(m) => step(old(self).state, Action::Confirm) is None && m@ == confirm_error(),
            },
    {
        match self.state {
            OrderState::Draft => {
                self.state = OrderState::Confirmed;
                Ok(())
            },
            _ => Err("Only draft orders can be confirmed".to_owned()),
        }
    }

    /// Confirmed -> Paid; any other state refuses and stays as it was.
    pub fn pay(&mut self) -> (r: Result<(), String>)
        ensures
            final(self).id == old(self).id,
            final(self).customer == old(self).customer,
            final(self).total_cents == old(self).total_cents,
            after(old(self).state, Action::Pay, final(self).state),
            match r {
                Ok(()) => step(old(self).state, Action::Pay) is Some,
                Err(m) => step(old(self).state, Action::Pay) is None && m@ == pay_error(),
            },
    {
        match self.state {
            OrderState::Confirmed => {
                self.state = OrderState::Paid;
                Ok(())
            },
            _ => Err("Only confirmed orders can be paid".to_owned()),
        }
    }

    /// Paid -> Shipped; any other state refuses and stays as it was.
    pub fn ship(&mut self) -> (r: Result<(), String>)
        ensures
            final(self).id == old(self).id,
            final(self).customer == old(self).customer,
            final(self).total_cents == old(self).total_cents,
            after(old(self).state, Action::Ship, final(self).state),
            match r {
                Ok(()) => step(old(self).state, Action::Ship) is Some,
                Err(m) => step(old(self).state, Action::Ship) is None && m@ == ship_error(),
            },
    {
        match self.state {
            OrderState::Paid => {
                self.state = OrderState::Shipped;
                Ok(())
            },
            _ => Err("Only paid orders can be shipped".to_owned()),
        }
    }

    /// Shipped -> Delivered; any other state refuses and stays as it was.
    pub fn deliver(&mut self) -> (r: Result<(), String>)
        ensures
            final(self).id == old(self).id,
            final(self).customer == old(self).customer,
            final(self).total_cents == old(self).total_cents,
            after(old(self).state, Action::Deliver, final(self).state),
            match r {
                Ok(()) => step(old(self).state, Action::Deliver) is Some,
                Err(m) => step(old(self).state, Action::Deliver) is None && m@ == deliver_error(),
            },
    {
        match self.state {
            OrderState::Shipped => {
                self.state = OrderState::Delivered;
                Ok(())
            },
            _ => Err("Only shipped orders can be delivered".to_owned()),
        }
    }

    /// Draft or Confirmed -> Cancelled(reason); any other state refuses and
    /// stays as it was.
    pub fn cancel(&mut self, reason: String) -> (r: Result<(), String>)
        ensures
            final(self).id == old(self).id,
            final(self).customer == old(self).customer,
            final(self).total_cents == old(self).total_cents,
            after(old(self).state, Action::Cancel(reason@), final(self).state),
            match r {
                Ok(()) => step(old(self).state, Action::Cancel(reason@)) is Some,
                Err(m) => step(old(self).state, Action::Cancel(reason@)) is None && m@
                    == cancel_error(),
            },
    {
        match self.state {
            OrderState::Draft | OrderState::Confirmed => {
                self.state = OrderState::Cancelled(reason);
                Ok(())
            },
            _ => Err("Order cannot be cancelled in current state".to_owned()),
        }
    }
}

/// Delivered and cancelled orders are final: every action is refused.
pub proof fn law_final_states_refuse_everything(s: OrderState, a: Action)
    requires
        s is Delivered || s is Cancelled,
    ensures
        step(s, a) is None,
{
}

/// An order can be cancelled exactly while it is a draft or confirmed,
/// that is, before it is paid.
pub proof fn law_cancel_only_before_payment(s: OrderState, reason: Seq<char>)
    ensures
        step(s, Action::Cancel(reason)) is Some <==> (s is Draft || s is Confirmed),
{
}

/// Position of a state in the lifecycle.
pub open spec fn rank(s: OrderState) -> int {
    match s {
        OrderState::Draft => 0,
        OrderState::Confirmed => 1,
        OrderState::Paid => 2,
        OrderState::Shipped => 3,
        OrderState::Delivered => 4,
        OrderState::Cancelled(_) => 5,
    }
}

/// Every accepted action other than cancelling moves the order exactly one
/// step forward, so no state is entered twice.
pub proof fn law_progress_is_monotone(s: OrderState, a: Action)
    requires
        step(s, a) is Some,
        !(a is Cancel),
    ensures
        rank(step(s, a)->0) == rank(s) + 1,
{
}

/// What a user can type at the order prompt.
pub enum OrderCommand {
    Confirm,
    Pay,
    Ship,
    Deliver,
    Cancel,
    Quit,
    Unknown,
}

/// The command a typed line names, after trimming and lower-casing.
pub open spec fn command_of(s: Seq<char>) -> OrderCommand {
    if s == "confirm"@ {
        OrderCommand::Confirm
    } else if s == "pay"@ {
        OrderCommand::Pay
    } else if s == "ship"@ {
        OrderCommand::Ship
    } else if s == "deliver"@ {
        OrderCommand::Deliver
    } else if s == "cancel"@ {
        OrderCommand::Cancel
    } else if s == "quit"@ {
        OrderCommand::Quit
    } else {
        OrderCommand::Unknown
    }
}

/// Reads a command from a typed line.
pub fn parse_command(input: &str) -> (c: OrderCommand)
    ensures
        c == command_of(lowered(trim(input@))),
{
    let l = to_lowercase_str(trim_str(input));
    let t = l.as_str();
    if same_text(t, "confirm") {
        OrderCommand::Confirm
    } else if same_text(t, "pay") {
        OrderCommand::Pay
    } else if same_text(t, "ship") {
        OrderCommand::Ship
    } else if same_text(t, "deliver") {
        OrderCommand::Deliver
    } else if same_text(t, "cancel") {
        OrderCommand::Cancel
    } else if same_text(t, "quit") {
        OrderCommand::Quit
    } else {
        OrderCommand::Unknown
    }
}

/// The status line of an order: `Order #<id> | Customer: <name> | Total:
/// <total with two decimals> | State: <state>`.
pub open spec fn status_text(o: Order) -> Seq<char> {
    "Order #"@ + decimal(o.id as int) + " | Customer: "@ + o.customer@ + " | Total: "@ + money_text(
        o.total_cents as nat,
    ) + " | State: "@ + state_text(o.state)
}

impl Order {
    /// The order's status line, as shown before each prompt.
    pub fn status_line(&self) -> (t: String)
        ensures
            t@ == status_text(*self),
    {
        let mut t = "Order #".to_owned();
        let id = decimal_chars_u64(self.id as u64);
        push_chars(&mut t, &id);
        push_str(&mut t, " | Customer: ");
        push_str(&mut t, self.customer.as_str());
        push_str(&mut t, " | Total: ");
        push_money(&mut t, self.total_cents);
        push_str(&mut t, " | State: ");
        let st = self.state.display_text();
        push_str(&mut t, st.as_str());
        t
    }
}

} // verus!
