//! Shaping query results for the outside: identifiers stay display text,
//! dates become RFC 3339 text.  No rule of the query engine lives here.
use vstd::prelude::*;
use crate::orders::{Order, OrderView};
use crate::dates::{rfc3339_text_of, format_rfc3339};

verus! {

/// The view carries the order's fields unchanged, with the date rendered as
/// RFC 3339 text (empty where the instant cannot be rendered).
pub open spec fn view_of(o: Order, v: OrderView) -> bool {
    v.id@ == o.id@ && v.name@ == o.name@ && v.order_type@ == o.order_type@ && v.amount == o.amount
        && v.currency@ == o.currency@ && v.date@ == (match rfc3339_text_of(o.date) {
        Some(s) => s,
        None => Seq::<char>::empty(),
    }) && (match (v.remark, o.remark) {
        (Some(a), Some(b)) => a@ == b@,
        (None, None) => true,
        _ => false,
    })
}

/// Shape one order for the outside.
pub fn assemble_order(o: &Order) -> (v: OrderView)
    ensures
        view_of(*o, v),
{
    let date = match format_rfc3339(o.date) {
        Some(s) => s,
        None => String::new(),
    };
    OrderView {
        id: o.id.clone(),
        name: o.name.clone(),
        order_type: o.order_type.clone(),
        amount: o.amount,
        currency: o.currency.clone(),
        date,
        remark: match &o.remark {
            Some(s) => Some(s.clone()),
            None => None,
        },
    }
}

/// Shape a page of orders, element by element, keeping the order.
pub fn assemble_page(page: &Vec<Order>) -> (r: Vec<OrderView>)
    ensures
        r@.len() == page@.len(),
        forall|i: int| 0 <= i < page@.len() ==> view_of(page@[i], #[trigger] r@[i]),
{
    let mut r: Vec<OrderView> = Vec::new();
    let mut i: usize = 0;
    while i < page.len()
        invariant
            i <= page@.len(),
            r@.len() == i,
            forall|m: int| 0 <= m < i ==> view_of(page@[m], #[trigger] r@[m]),
        decreases page@.len() - i,
    {
        r.push(assemble_order(&page[i]));
        i = i + 1;
    }
    r
}

} // verus!
