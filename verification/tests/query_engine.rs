use finance_core::orders::{Order, OrderQuery};
use finance_core::query::query_orders;
use finance_core::assemble::assemble_page;

fn order(name: &str, order_type: &str, amount: i64, date: i64) -> Order {
    Order {
        id: String::from("0123456789abcdef01234567"),
        name: String::from(name),
        order_type: String::from(order_type),
        amount,
        currency: String::from("CNY"),
        date,
        remark: None,
    }
}

fn three_records() -> Vec<Order> {
    vec![
        order("salary", "income", 100, 1_000),
        order("groceries", "expense", 40, 2_000),
        order("bus fare", "expense", 10, 3_000),
    ]
}

fn no_filters() -> OrderQuery {
    OrderQuery::new()
}

#[test]
fn first_page_with_totals_and_stats() {
    let orders = three_records();
    let mut q = no_filters();
    q.page = Some(1);
    q.page_size = Some(2);
    let r = query_orders(&orders, &q);
    assert_eq!(r.total, 3);
    assert_eq!(r.page.len(), 2);
    assert_eq!(r.page[0].name, "salary");
    assert_eq!(r.page[1].name, "groceries");
    // aggregation ranges over all three matching orders, not just the page
    assert_eq!(r.stats.len(), 2);
    assert_eq!(r.stats[0].0, "income");
    assert_eq!(r.stats[0].1, 100);
    assert_eq!(r.stats[1].0, "expense");
    assert_eq!(r.stats[1].1, 50);
}

#[test]
fn totals_and_stat_sum_agree_with_filter() {
    let orders = three_records();
    let mut q = no_filters();
    q.order_type = Some(String::from("expense"));
    let r = query_orders(&orders, &q);
    assert_eq!(r.total, 2);
    assert_eq!(r.stats.len(), 1);
    assert_eq!(r.stats[0].0, "expense");
    assert_eq!(r.stats[0].1, 50);
    let stat_sum: i128 = r.stats.iter().map(|p| p.1).sum();
    assert_eq!(stat_sum, 40 + 10);
}

#[test]
fn name_filter_is_literal_substring() {
    let orders = three_records();
    let mut q = no_filters();
    q.name = Some(String::from("roc"));
    let r = query_orders(&orders, &q);
    assert_eq!(r.total, 1);
    assert_eq!(r.page[0].name, "groceries");
    let mut q = no_filters();
    q.name = Some(String::from("Roc"));
    assert_eq!(query_orders(&orders, &q).total, 0);
}

#[test]
fn date_filter_is_inclusive_on_both_bounds() {
    let day = 86_400_000i64;
    let orders = vec![
        order("before", "expense", 1, 1_704_067_200_000 - day),
        order("at start", "expense", 2, 1_704_067_200_000),
        order("inside", "expense", 3, 1_704_067_200_000 + day),
        order("at end", "expense", 4, 1_704_153_600_000),
        order("after", "expense", 5, 1_704_153_600_000 + day),
    ];
    let mut q = no_filters();
    q.date_start = Some(String::from("2024-01-01T00:00:00Z"));
    q.date_end = Some(String::from("2024-01-02T00:00:00Z"));
    let r = query_orders(&orders, &q);
    assert_eq!(r.total, 3);
    assert_eq!(r.page[0].name, "at start");
    assert_eq!(r.page[1].name, "inside");
    assert_eq!(r.page[2].name, "at end");
}

#[test]
fn unparsable_date_bound_skips_the_date_filter() {
    let orders = three_records();
    let mut q = no_filters();
    q.date_start = Some(String::from("not-a-date"));
    q.date_end = Some(String::from("2020-01-01T00:00:00Z"));
    // the window would exclude every order; an unparsable bound skips it
    let r = query_orders(&orders, &q);
    assert_eq!(r.total, 3);
}

#[test]
fn single_date_bound_skips_the_date_filter() {
    let orders = three_records();
    let mut q = no_filters();
    q.date_end = Some(String::from("1970-01-01T00:00:00Z"));
    let r = query_orders(&orders, &q);
    assert_eq!(r.total, 3);
}

#[test]
fn pagination_edges() {
    let orders = three_records();
    // defaults: page 1, size 8, so everything
    let r = query_orders(&orders, &no_filters());
    assert_eq!(r.total, 3);
    assert_eq!(r.page.len(), 3);
    // a page past the end is empty, not an error
    let mut q = no_filters();
    q.page = Some(5);
    q.page_size = Some(2);
    assert_eq!(query_orders(&orders, &q).page.len(), 0);
    // page 0 is clamped to 1
    let mut q = no_filters();
    q.page = Some(0);
    q.page_size = Some(2);
    let r = query_orders(&orders, &q);
    assert_eq!(r.page.len(), 2);
    assert_eq!(r.page[0].name, "salary");
    // a partial last page
    let mut q = no_filters();
    q.page = Some(2);
    q.page_size = Some(2);
    let r = query_orders(&orders, &q);
    assert_eq!(r.page.len(), 1);
    assert_eq!(r.page[0].name, "bus fare");
    // a zero page size yields an empty page but the full total
    let mut q = no_filters();
    q.page_size = Some(0);
    let r = query_orders(&orders, &q);
    assert_eq!(r.total, 3);
    assert_eq!(r.page.len(), 0);
}

#[test]
fn mixed_currencies_sum_under_one_type() {
    let mut orders = three_records();
    let mut other = order("salary usd", "income", 7, 4_000);
    other.currency = String::from("USD");
    orders.push(other);
    let r = query_orders(&orders, &no_filters());
    assert_eq!(r.stats[0].0, "income");
    assert_eq!(r.stats[0].1, 107);
}

#[test]
fn negative_amounts_sum() {
    let orders = vec![
        order("refund", "expense", -30, 1_000),
        order("purchase", "expense", 70, 2_000),
    ];
    let r = query_orders(&orders, &no_filters());
    assert_eq!(r.stats[0].1, 40);
}

#[test]
fn assembled_page_renders_dates() {
    let orders = vec![
        order("epoch", "income", 1, 0),
        order("new year", "income", 2, 1_704_067_200_000),
    ];
    let r = query_orders(&orders, &no_filters());
    let views = assemble_page(&r.page);
    assert_eq!(views.len(), 2);
    assert_eq!(views[0].id, "0123456789abcdef01234567");
    assert_eq!(views[0].date, "1970-01-01T00:00:00Z");
    assert_eq!(views[1].date, "2024-01-01T00:00:00Z");
    assert_eq!(views[1].amount, 2);
    assert_eq!(views[1].currency, "CNY");
    assert_eq!(views[1].order_type, "income");
    assert_eq!(views[1].remark, None);
}
