use inventory_core::products::{group_products, parse_id_list, single_product, ProductRow};

fn row(id: i32, name: &str) -> ProductRow {
    ProductRow {
        id,
        name: name.to_string(),
        barcode: None,
        description: None,
        unit: None,
        purchase_price: None,
        sale_price: None,
        created_at: None,
        updated_at: None,
        code: None,
        article: None,
        category_id: None,
        product_type: None,
        brand: None,
        model: None,
        color: None,
        size: None,
        weight: None,
        country: None,
        manufacturer: None,
        warranty_period: None,
        min_stock: None,
        max_stock: None,
        tax_rate: None,
        is_active: None,
        production_date: None,
        expiry_date: None,
        warehouse_id: None,
        warehouse_product_id: None,
        warehouse_quantity: None,
        warehouse_updated_at: None,
        category_id_join: None,
        category_name: None,
        category_parent_id: None,
        category_created_at: None,
        category_updated_at: None,
    }
}

fn row_with_warehouse(id: i32, name: &str, warehouse_id: i32, category: i32) -> ProductRow {
    let mut r = row(id, name);
    r.warehouse_id = Some(warehouse_id);
    r.warehouse_product_id = Some(id);
    r.category_id_join = Some(category);
    r.category_name = Some("tools".to_string());
    r
}

#[test]
fn grouping_nests_every_warehouse_row_of_a_product() {
    let rows = vec![
        row_with_warehouse(1, "hammer", 10, 5),
        row_with_warehouse(1, "hammer", 11, 5),
        row_with_warehouse(1, "hammer", 12, 5),
    ];
    let grouped = group_products(&rows);
    assert_eq!(grouped.len(), 1);
    let p = &grouped[0];
    assert_eq!(p.product.id, 1);
    let wh = p.warehouse.as_ref().unwrap();
    assert_eq!(wh.len(), 3);
    assert_eq!(wh[0].id, 10);
    assert_eq!(wh[1].id, 11);
    assert_eq!(wh[2].id, 12);
    let cat = p.category.as_ref().unwrap();
    assert_eq!(cat.id, 5);
    assert_eq!(cat.name, "tools");
}

#[test]
fn grouping_preserves_first_seen_order() {
    let rows = vec![
        row_with_warehouse(2, "saw", 20, 5),
        row_with_warehouse(1, "hammer", 10, 5),
        row_with_warehouse(2, "saw", 21, 5),
    ];
    let grouped = group_products(&rows);
    assert_eq!(grouped.len(), 2);
    assert_eq!(grouped[0].product.id, 2);
    assert_eq!(grouped[1].product.id, 1);
    assert_eq!(grouped[0].warehouse.as_ref().unwrap().len(), 2);
    assert_eq!(grouped[1].warehouse.as_ref().unwrap().len(), 1);
}

#[test]
fn product_without_warehouse_or_category_stays_bare() {
    let rows = vec![row(3, "chisel")];
    let grouped = group_products(&rows);
    assert_eq!(grouped.len(), 1);
    assert!(grouped[0].category.is_none());
    assert_eq!(grouped[0].warehouse.as_ref().unwrap().len(), 0);
}

#[test]
fn empty_rows_group_to_nothing() {
    let grouped = group_products(&Vec::new());
    assert_eq!(grouped.len(), 0);
}

#[test]
fn single_product_takes_first_row_and_all_warehouses() {
    let rows = vec![
        row_with_warehouse(4, "drill", 30, 6),
        row_with_warehouse(4, "drill", 31, 6),
    ];
    let p = single_product(&rows).unwrap();
    assert_eq!(p.product.id, 4);
    assert_eq!(p.warehouse.as_ref().unwrap().len(), 2);
    assert_eq!(p.category.as_ref().unwrap().id, 6);
    assert!(single_product(&Vec::new()).is_none());
}

#[test]
fn id_filter_keeps_the_parsable_segments() {
    assert_eq!(parse_id_list("1,2,3"), vec![1, 2, 3]);
    assert_eq!(parse_id_list("1,x,3"), vec![1, 3]);
    assert_eq!(parse_id_list(""), Vec::<i32>::new());
    assert_eq!(parse_id_list(",5,"), vec![5]);
    assert_eq!(parse_id_list("-7,+8"), vec![-7, 8]);
}

#[test]
fn id_filter_respects_the_integer_range() {
    assert_eq!(parse_id_list("2147483647,2147483648"), vec![2147483647]);
    assert_eq!(parse_id_list("-2147483648"), vec![-2147483648]);
    assert_eq!(parse_id_list("-2147483649"), Vec::<i32>::new());
}
