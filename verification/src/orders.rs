//! The order record and the query request/result shapes.
use vstd::prelude::*;

verus! {

/// A transaction record owned by one principal.  The identifier is the
/// record key rendered as hexadecimal text; the amount is in minor currency
/// units; the date is in milliseconds since the Unix epoch.
pub struct Order {
    pub id: String,
    pub name: String,
    pub order_type: String,
    pub amount: i64,
    pub currency: String,
    pub date: i64,
    pub remark: Option<String>,
}

impl Clone for Order {
    fn clone(&self) -> (r: Self)
        ensures
            r == *self,
    {
        Order {
            id: self.id.clone(),
            name: self.name.clone(),
            order_type: self.order_type.clone(),
            amount: self.amount,
            currency: self.currency.clone(),
            date: self.date,
            remark: match &self.remark {
                Some(s) => Some(s.clone()),
                None => None,
            },
        }
    }
}

/// Query criteria: pagination plus three independently optional filters.
pub struct OrderQuery {
    pub page: Option<usize>,
    pub page_size: Option<usize>,
    pub name: Option<String>,
    pub order_type: Option<String>,
    pub date_start: Option<String>,
    pub date_end: Option<String>,
}

impl OrderQuery {
    /// Criteria with no filters and default pagination.
    pub fn new() -> (r: OrderQuery)
        ensures
            r.page is None,
            r.page_size is None,
            r.name is None,
            r.order_type is None,
            r.date_start is None,
            r.date_end is None,
    {
        OrderQuery {
            page: None,
            page_size: None,
            name: None,
            order_type: None,
            date_start: None,
            date_end: None,
        }
    }
}

/// What a query returns: the count of all matching orders, the requested
/// page of them in store order, and the per-type amount sums over the whole
/// matching set (not just the page).
pub struct QueryResult {
    pub total: usize,
    pub page: Vec<Order>,
    pub stats: Vec<(String, i128)>,
}

/// An order shaped for the outside: identifier and date as display text.
pub struct OrderView {
    pub id: String,
    pub name: String,
    pub order_type: String,
    pub amount: i64,
    pub currency: String,
    pub date: String,
    pub remark: Option<String>,
}

} // verus!
