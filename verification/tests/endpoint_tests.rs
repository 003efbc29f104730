use inventory_core::customers::{customer_insert_defaults, map_customer_row, CustomerRow};
use inventory_core::invoice::{attach_customer, SaleInvoice};
use inventory_core::logs::{logs_created_message, normalize_log, ActivityLog};
use inventory_core::notifications::{notification_of_request, CreateNotificationRequest};
use inventory_core::paging::{effective_limit, effective_page, page_offset};
use inventory_core::sorting::{
    like_pattern, order_clause, sort_column_of, sort_direction_of, SortColumn, SortDirection,
};
use inventory_core::timestamp::{format_rfc3339, Timestamp};

fn ts(h: u8, m: u8, s: u8, micros: u32) -> Timestamp {
    Timestamp { year: 2023, month: 1, day: 5, hour: h, minute: m, second: s, micros }
}

#[test]
fn paging_defaults_and_offset() {
    assert_eq!(effective_page(None), 1);
    assert_eq!(effective_limit(None), 50);
    assert_eq!(effective_page(Some(3)), 3);
    assert_eq!(page_offset(1, 50), Some(0));
    assert_eq!(page_offset(3, 50), Some(100));
    assert_eq!(page_offset(0, 50), Some(-50));
    assert_eq!(page_offset(i64::MAX, 2), None);
}

#[test]
fn sort_names_resolve_against_the_allow_list() {
    assert_eq!(sort_column_of(Some(&"invoice_number".to_string())), SortColumn::InvoiceNumber);
    assert_eq!(sort_column_of(Some(&"customers".to_string())), SortColumn::CustomerName);
    assert_eq!(sort_column_of(Some(&"customer_name".to_string())), SortColumn::CustomerName);
    assert_eq!(sort_column_of(Some(&"unknown".to_string())), SortColumn::CreatedAt);
    assert_eq!(sort_column_of(None), SortColumn::CreatedAt);
    assert_eq!(sort_direction_of(Some(&"asc".to_string())), SortDirection::Asc);
    assert_eq!(sort_direction_of(Some(&"desc".to_string())), SortDirection::Desc);
    assert_eq!(sort_direction_of(None), SortDirection::Desc);
}

#[test]
fn order_clause_never_carries_caller_text() {
    assert_eq!(order_clause(SortColumn::TotalAmount, SortDirection::Asc), "i.total_amount ASC");
    assert_eq!(order_clause(SortColumn::CreatedAt, SortDirection::Desc), "i.created_at DESC");
    let hostile = "created_at; DROP TABLE sale_invoices".to_string();
    let col = sort_column_of(Some(&hostile));
    assert_eq!(order_clause(col, SortDirection::Desc), "i.created_at DESC");
}

#[test]
fn search_text_becomes_a_bound_pattern() {
    assert_eq!(like_pattern("SQ0000"), "%SQ0000%");
    assert_eq!(like_pattern(""), "%%");
}

#[test]
fn timestamps_render_as_utc_rfc3339_with_z() {
    assert_eq!(format_rfc3339(&ts(7, 9, 3, 0)), "2023-01-05T07:09:03Z");
    assert_eq!(format_rfc3339(&ts(23, 59, 59, 500000)), "2023-01-05T23:59:59.500Z");
    assert_eq!(format_rfc3339(&ts(0, 0, 0, 123456)), "2023-01-05T00:00:00.123456Z");
    let early = Timestamp { year: 1, month: 2, day: 3, hour: 4, minute: 5, second: 6, micros: 0 };
    assert_eq!(format_rfc3339(&early), "0001-02-03T04:05:06Z");
}

fn customer_row(folder: Option<i32>, folder_name: Option<&str>) -> CustomerRow {
    CustomerRow {
        id: 9,
        name: "Acme".to_string(),
        phone: Some("555".to_string()),
        email: None,
        address: None,
        created_at: None,
        updated_at: None,
        balance: None,
        folder_id: folder,
        code: None,
        is_active: Some(true),
        customer_type: Some("BUYER".to_string()),
        permanent_discount: None,
        folder_id_join: folder,
        folder_name: folder_name.map(|s| s.to_string()),
        folder_parent_id: None,
    }
}

#[test]
fn customer_row_maps_folder_when_joined() {
    let with = map_customer_row(customer_row(Some(4), Some("retail")));
    assert_eq!(with.customer.id, 9);
    assert_eq!(with.customer.name, "Acme");
    let folder = with.folder.unwrap();
    assert_eq!(folder.id, 4);
    assert_eq!(folder.name, "retail");

    let missing_name = map_customer_row(customer_row(Some(4), None));
    assert_eq!(missing_name.folder.unwrap().name, "");

    let without = map_customer_row(customer_row(None, None));
    assert!(without.folder.is_none());
}

#[test]
fn customer_creation_defaults() {
    let (active, kind) = customer_insert_defaults(None, None);
    assert!(active);
    assert_eq!(kind, "BUYER");
    let (active, kind) = customer_insert_defaults(Some(false), Some("SELLER".to_string()));
    assert!(!active);
    assert_eq!(kind, "SELLER");
}

#[test]
fn joined_customer_columns_nest_into_the_invoice() {
    let invoice = SaleInvoice {
        id: 1,
        invoice_number: "SQ00000001".to_string(),
        customer_id: Some(9),
        total_amount: None,
        invoice_date: None,
        notes: None,
        created_at: None,
        payment_date: None,
        is_active: Some(false),
        customers: None,
    };
    let with = attach_customer(
        invoice,
        Some("Acme".to_string()),
        Some("555".to_string()),
        None,
    );
    let snapshot = with.customers.unwrap();
    assert_eq!(snapshot.name.as_deref(), Some("Acme"));
    assert_eq!(snapshot.phone.as_deref(), Some("555"));
    assert_eq!(snapshot.address, None);

    let bare = SaleInvoice { customers: None, ..with };
    let untouched = attach_customer(bare, None, Some("555".to_string()), None);
    assert!(untouched.customers.is_none());
}

#[test]
fn log_normalization_fills_only_the_gaps() {
    let log = ActivityLog {
        id: None,
        log_id: None,
        user_id: Some(2),
        timestamp: None,
        level: None,
        category: Some("AUTH".to_string()),
        action: "login".to_string(),
        details: None,
        metadata: None,
        created_at: None,
    };
    let now = ts(12, 0, 0, 0);
    let n = normalize_log(log, "generated-id".to_string(), now);
    assert_eq!(n.log_id.as_deref(), Some("generated-id"));
    assert_eq!(n.timestamp, Some(now));
    assert_eq!(n.level.as_deref(), Some("INFO"));
    assert_eq!(n.category.as_deref(), Some("AUTH"));
    assert_eq!(n.action, "login");
    assert_eq!(n.user_id, Some(2));
}

#[test]
fn log_count_message() {
    assert_eq!(logs_created_message(3), "3 logs created");
    assert_eq!(logs_created_message(0), "0 logs created");
    assert_eq!(logs_created_message(120), "120 logs created");
}

#[test]
fn notification_row_from_request() {
    let req = CreateNotificationRequest {
        user_id: 5,
        notification_type: "stock".to_string(),
        title: "low stock".to_string(),
        message: "hammer below minimum".to_string(),
    };
    let now = ts(8, 30, 0, 0);
    let n = notification_of_request(req, 77, now);
    assert_eq!(n.id, 77);
    assert_eq!(n.user_id, 5);
    assert_eq!(n.notification_type, "stock");
    assert_eq!(n.read, Some(false));
    assert_eq!(n.timestamp, Some(now));
}
