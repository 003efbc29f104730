use inventory_core::money::{Amount, MAX_MANTISSA};
use inventory_core::orders::{
    CreateOrderItem, CreateOrderRequest, InvoiceRow, LedgerError, SaleLedger, UpdateOrderRequest,
};

fn amount(mantissa: i128, scale: u32) -> Amount {
    Amount::new(mantissa, scale).unwrap()
}

fn item(product_id: i32, total_price: Amount) -> CreateOrderItem {
    CreateOrderItem {
        product_id,
        quantity: amount(1, 0),
        unit_price: total_price,
        total_price,
        discount_auto: None,
        discount_manual: None,
        vat_rate: None,
    }
}

fn create_request(items: Vec<CreateOrderItem>) -> CreateOrderRequest {
    CreateOrderRequest {
        customer_id: None,
        invoice_date: None,
        payment_date: None,
        notes: None,
        items,
    }
}

#[test]
fn first_creation_gets_first_number_and_exact_total() {
    let mut ledger = SaleLedger::new();
    let req = create_request(vec![item(7, amount(1050, 2)), item(8, amount(525, 2))]);
    let id = ledger.create_order(&req, None).unwrap();
    assert_eq!(id, 1);
    let (header, items) = ledger.get_order(id).unwrap();
    assert_eq!(header.invoice_number, "SQ00000001");
    assert_eq!(header.total_amount.mantissa, 1575);
    assert_eq!(header.total_amount.scale, 2);
    assert!(!header.is_active); // created as a draft
    assert_eq!(items.len(), 2);
    assert_eq!(items[0].product_id, 7);
    assert_eq!(items[1].product_id, 8);
    assert_eq!(items[0].invoice_id, id);
    assert_eq!(items[1].invoice_id, id);
}

#[test]
fn numbers_follow_the_last_stored_one() {
    let mut ledger = SaleLedger::new();
    let first = ledger.create_order(&create_request(vec![]), None).unwrap();
    let second = ledger.create_order(&create_request(vec![]), None).unwrap();
    let (h1, _) = ledger.get_order(first).unwrap();
    let (h2, _) = ledger.get_order(second).unwrap();
    assert_eq!(h1.invoice_number, "SQ00000001");
    assert_eq!(h2.invoice_number, "SQ00000002");
}

#[test]
fn many_creations_yield_distinct_numbers_without_gaps() {
    let mut ledger = SaleLedger::new();
    let mut numbers: Vec<String> = Vec::new();
    for k in 0..20 {
        let id = ledger
            .create_order(&create_request(vec![item(k, amount(100, 2))]), None)
            .unwrap();
        let (header, _) = ledger.get_order(id).unwrap();
        numbers.push(header.invoice_number);
    }
    for i in 0..numbers.len() {
        assert_eq!(numbers[i], format!("SQ{:08}", i + 1));
        for j in 0..i {
            assert_ne!(numbers[i], numbers[j]);
        }
    }
}

#[test]
fn update_with_empty_item_list_replaces_all_items() {
    let mut ledger = SaleLedger::new();
    let req = create_request(vec![item(7, amount(1050, 2)), item(8, amount(525, 2))]);
    let id = ledger.create_order(&req, None).unwrap();
    let update = UpdateOrderRequest {
        customer_id: None,
        invoice_date: None,
        payment_date: None,
        notes: None,
        items: Some(vec![]),
    };
    ledger.update_order(id, &update).unwrap();
    let (header, items) = ledger.get_order(id).unwrap();
    assert_eq!(items.len(), 0);
    assert_eq!(header.total_amount.mantissa, 0);
}

#[test]
fn update_with_item_list_replaces_and_recomputes_total() {
    let mut ledger = SaleLedger::new();
    let id = ledger
        .create_order(&create_request(vec![item(7, amount(1050, 2))]), None)
        .unwrap();
    let update = UpdateOrderRequest {
        customer_id: None,
        invoice_date: None,
        payment_date: None,
        notes: None,
        items: Some(vec![item(9, amount(300, 2)), item(10, amount(150, 2))]),
    };
    ledger.update_order(id, &update).unwrap();
    let (header, items) = ledger.get_order(id).unwrap();
    assert_eq!(items.len(), 2);
    assert_eq!(items[0].product_id, 9);
    assert_eq!(items[1].product_id, 10);
    assert_eq!(header.total_amount.mantissa, 450);
    assert_eq!(header.total_amount.scale, 2);
}

#[test]
fn update_without_items_leaves_items_and_total_alone() {
    let mut ledger = SaleLedger::new();
    let req = create_request(vec![item(7, amount(1050, 2)), item(8, amount(525, 2))]);
    let id = ledger.create_order(&req, None).unwrap();
    let update = UpdateOrderRequest {
        customer_id: Some(42),
        invoice_date: None,
        payment_date: None,
        notes: Some("paid in cash".to_string()),
        items: None,
    };
    ledger.update_order(id, &update).unwrap();
    let (header, items) = ledger.get_order(id).unwrap();
    assert_eq!(items.len(), 2);
    assert_eq!(header.total_amount.mantissa, 1575);
    assert_eq!(header.customer_id, Some(42));
    assert_eq!(header.notes.as_deref(), Some("paid in cash"));
}

#[test]
fn update_of_missing_invoice_changes_nothing() {
    let mut ledger = SaleLedger::new();
    let id = ledger
        .create_order(&create_request(vec![item(7, amount(1050, 2))]), None)
        .unwrap();
    let update = UpdateOrderRequest {
        customer_id: Some(1),
        invoice_date: None,
        payment_date: None,
        notes: None,
        items: Some(vec![]),
    };
    assert_eq!(ledger.update_order(id + 1, &update), Err(LedgerError::NotFound));
    let (header, items) = ledger.get_order(id).unwrap();
    assert_eq!(items.len(), 1);
    assert_eq!(header.customer_id, None);
}

#[test]
fn delete_leaves_no_orphaned_item_rows() {
    let mut ledger = SaleLedger::new();
    let first = ledger
        .create_order(&create_request(vec![item(7, amount(1050, 2))]), None)
        .unwrap();
    let second = ledger
        .create_order(
            &create_request(vec![item(8, amount(200, 2)), item(9, amount(300, 2))]),
            None,
        )
        .unwrap();
    ledger.delete_order(second);
    assert!(ledger.get_order(second).is_none());
    for row in &ledger.items {
        assert_ne!(row.invoice_id, second);
    }
    let (_, first_items) = ledger.get_order(first).unwrap();
    assert_eq!(first_items.len(), 1);
}

#[test]
fn failed_creation_consumes_no_number() {
    let mut ledger = SaleLedger::new();
    // these two amounts are each representable but have no exact sum
    let bad = create_request(vec![
        item(1, amount(MAX_MANTISSA, 0)),
        item(2, amount(1, 28)),
    ]);
    assert_eq!(ledger.create_order(&bad, None), Err(LedgerError::TotalOverflow));
    assert_eq!(ledger.invoices.len(), 0);
    assert_eq!(ledger.items.len(), 0);
    let id = ledger.create_order(&create_request(vec![]), None).unwrap();
    let (header, _) = ledger.get_order(id).unwrap();
    assert_eq!(header.invoice_number, "SQ00000001");
}

#[test]
fn status_update_touches_only_the_flag() {
    let mut ledger = SaleLedger::new();
    let req = create_request(vec![item(7, amount(1050, 2))]);
    let id = ledger.create_order(&req, None).unwrap();
    ledger.set_active_status(id, true);
    let (header, items) = ledger.get_order(id).unwrap();
    assert!(header.is_active);
    assert_eq!(header.total_amount.mantissa, 1050);
    assert_eq!(items.len(), 1);
    ledger.set_active_status(id, false);
    let (header, _) = ledger.get_order(id).unwrap();
    assert!(!header.is_active);
    // an absent identity is a no-op
    ledger.set_active_status(id + 5, true);
    assert_eq!(ledger.invoices.len(), 1);
}

#[test]
fn deleted_last_invoice_frees_its_number() {
    let mut ledger = SaleLedger::new();
    let first = ledger.create_order(&create_request(vec![]), None).unwrap();
    let second = ledger.create_order(&create_request(vec![]), None).unwrap();
    ledger.delete_order(second);
    let third = ledger.create_order(&create_request(vec![]), None).unwrap();
    assert_ne!(first, third);
    let (header, _) = ledger.get_order(third).unwrap();
    // the number follows the last remaining invoice
    assert_eq!(header.invoice_number, "SQ00000002");
}

#[test]
fn exhausted_number_space_refuses_creation() {
    let mut ledger = SaleLedger::new();
    ledger.invoices.push(InvoiceRow {
        id: 1,
        invoice_number: "SQ18446744073709551615".to_string(),
        customer_id: None,
        total_amount: amount(0, 0),
        invoice_date: None,
        payment_date: None,
        notes: None,
        created_at: None,
        is_active: false,
    });
    ledger.next_invoice_id = 2;
    assert_eq!(
        ledger.create_order(&create_request(vec![]), None),
        Err(LedgerError::NumberExhausted)
    );
    assert_eq!(ledger.invoices.len(), 1);
}

#[test]
fn exhausted_item_identities_refuse_creation() {
    let mut ledger = SaleLedger::new();
    ledger.next_item_id = i32::MAX;
    assert_eq!(
        ledger.create_order(&create_request(vec![item(1, amount(100, 2))]), None),
        Err(LedgerError::IdExhausted)
    );
    assert_eq!(ledger.invoices.len(), 0);
    assert_eq!(ledger.items.len(), 0);
}

#[test]
fn creation_keeps_request_fields() {
    let mut ledger = SaleLedger::new();
    let req = CreateOrderRequest {
        customer_id: Some(3),
        invoice_date: None,
        payment_date: None,
        notes: Some("first order".to_string()),
        items: vec![],
    };
    let id = ledger.create_order(&req, None).unwrap();
    let (header, _) = ledger.get_order(id).unwrap();
    assert_eq!(header.customer_id, Some(3));
    assert_eq!(header.notes.as_deref(), Some("first order"));
    assert_eq!(header.total_amount.mantissa, 0);
}
