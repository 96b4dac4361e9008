use allocation::date::Date;
use allocation::error::Error;
use allocation::model::allocate;
use allocation::model::Batch;
use allocation::model::OrderLine;
use allocation::model::Response;

#[test]
fn allocate_prefers_earliest_eta_shipment() {
    let early = Batch::new(
        "early-batch".to_owned(),
        "MINIMALIST-SPOON".to_owned(),
        100,
        Some(Date::new(2011, 1, 1)),
    );
    let late = Batch::new(
        "late-batch".to_owned(),
        "MINIMALIST-SPOON".to_owned(),
        100,
        Some(Date::new(2011, 1, 2)),
    );
    let line = OrderLine::new("order-007".to_owned(), "MINIMALIST-SPOON".to_owned(), 3);

    let mut batches = vec![late, early];
    let res = allocate(line, &mut batches);

    assert_eq!(res, Ok("early-batch".to_owned()));
    assert_eq!(batches[0].available_quantity(), 100);
    assert_eq!(batches[1].available_quantity(), 97);
}

#[test]
fn allocate_prefers_earlier_eta_across_year_boundary() {
    let december = Batch::new(
        "december-batch".to_owned(),
        "FESTIVE-MUG".to_owned(),
        50,
        Some(Date::new(2011, 12, 31)),
    );
    let january = Batch::new(
        "january-batch".to_owned(),
        "FESTIVE-MUG".to_owned(),
        50,
        Some(Date::new(2012, 1, 1)),
    );
    let line = OrderLine::new("order-031".to_owned(), "FESTIVE-MUG".to_owned(), 5);

    let mut batches = vec![january, december];
    let res = allocate(line, &mut batches);

    assert_eq!(res, Ok("december-batch".to_owned()));
}

#[test]
fn allocate_with_no_batches_is_out_of_stock() {
    let line = OrderLine::new("order-1".to_owned(), "LONELY-SKU".to_owned(), 1);
    let mut batches: Vec<Batch> = vec![];
    let res = allocate(line, &mut batches);
    assert_eq!(res, Err(Error::OutOfStock("LONELY-SKU".to_owned())));
}

#[test]
fn out_of_stock_leaves_available_quantity_unchanged() {
    let batch = Batch::new("the-batch".to_owned(), "SMALL-FORK".to_owned(), 10, None);
    let mut batches = vec![batch];
    let first = allocate(
        OrderLine::new("order1".to_owned(), "SMALL-FORK".to_owned(), 10),
        &mut batches,
    );
    assert_eq!(first, Ok("the-batch".to_owned()));
    assert_eq!(batches[0].available_quantity(), 0);

    let second = allocate(
        OrderLine::new("order2".to_owned(), "SMALL-FORK".to_owned(), 1),
        &mut batches,
    );
    assert_eq!(second, Err(Error::OutOfStock("SMALL-FORK".to_owned())));
    assert_eq!(batches[0].available_quantity(), 0);
    assert_eq!(batches[0].allocations().len(), 1);
}

#[test]
fn failed_allocate_leaves_all_batches_unchanged() {
    let small = Batch::new("small-batch".to_owned(), "WIDE-SOFA".to_owned(), 5, None);
    let other_sku = Batch::new(
        "other-batch".to_owned(),
        "NARROW-SOFA".to_owned(),
        100,
        None,
    );
    let mut batches = vec![small, other_sku];
    let res = allocate(
        OrderLine::new("order-9".to_owned(), "WIDE-SOFA".to_owned(), 6),
        &mut batches,
    );
    assert_eq!(res, Err(Error::OutOfStock("WIDE-SOFA".to_owned())));
    assert_eq!(batches[0].available_quantity(), 5);
    assert_eq!(batches[1].available_quantity(), 100);
    assert_eq!(batches[0].allocations().len(), 0);
    assert_eq!(batches[1].allocations().len(), 0);
}

#[test]
fn two_distinct_lines_reduce_available_cumulatively() {
    let mut batch = Batch::new("batch-2".to_owned(), "ANGULAR-DESK".to_owned(), 20, None);
    batch.allocate(OrderLine::new(
        "order-1".to_owned(),
        "ANGULAR-DESK".to_owned(),
        2,
    ));
    batch.allocate(OrderLine::new(
        "order-2".to_owned(),
        "ANGULAR-DESK".to_owned(),
        2,
    ));
    assert_eq!(batch.available_quantity(), 16);
}

#[test]
fn deallocate_restores_available_quantity() {
    let mut batch = Batch::new("batch-3".to_owned(), "COMFY-CHAIR".to_owned(), 20, None);
    let line = OrderLine::new("order-5".to_owned(), "COMFY-CHAIR".to_owned(), 7);
    batch.allocate(line.clone());
    assert_eq!(batch.available_quantity(), 13);
    batch.deallocate(line);
    assert_eq!(batch.available_quantity(), 20);
}

#[test]
fn largest_quantities_allocate_fully() {
    let mut batch = Batch::new(
        "big-batch".to_owned(),
        "HUGE-CRATE".to_owned(),
        u32::MAX,
        None,
    );
    let line = OrderLine::new("order-max".to_owned(), "HUGE-CRATE".to_owned(), u32::MAX);
    assert!(batch.can_allocate(&line));
    batch.allocate(line);
    assert_eq!(batch.available_quantity(), 0);
}

#[test]
fn with_allocations_reconstructs_allocation_set() {
    let mut live = Batch::new("batch1".to_owned(), "GENERIC-SOFA".to_owned(), 100, None);
    live.allocate(OrderLine::new(
        "order1".to_owned(),
        "GENERIC-SOFA".to_owned(),
        12,
    ));
    assert_eq!(live.available_quantity(), 88);

    let reloaded = Batch::with_allocations(
        "batch1".to_owned(),
        "GENERIC-SOFA".to_owned(),
        100,
        None,
        vec![OrderLine::new(
            "order1".to_owned(),
            "GENERIC-SOFA".to_owned(),
            12,
        )],
    )
    .unwrap();

    assert_eq!(reloaded, live);
    assert_eq!(reloaded.sku().as_str(), "GENERIC-SOFA");
    assert_eq!(reloaded.reference().as_str(), "batch1");
    assert_eq!(reloaded.purchased_quantity(), 100);
    assert_eq!(reloaded.eta(), None);
    assert_eq!(reloaded.allocations().len(), 1);
    assert_eq!(reloaded.allocations()[0].orderid().as_str(), "order1");
    assert_eq!(reloaded.allocations()[0].qty(), 12);
    assert_eq!(reloaded.available_quantity(), live.available_quantity());
}

#[test]
fn with_allocations_rejects_duplicate_lines() {
    let twice = vec![
        OrderLine::new("order1".to_owned(), "GENERIC-SOFA".to_owned(), 12),
        OrderLine::new("order1".to_owned(), "GENERIC-SOFA".to_owned(), 12),
    ];
    let rebuilt = Batch::with_allocations(
        "batch1".to_owned(),
        "GENERIC-SOFA".to_owned(),
        100,
        None,
        twice,
    );
    assert!(rebuilt.is_none());
}

#[test]
fn with_allocations_rejects_overallocation() {
    let too_much = vec![
        OrderLine::new("order1".to_owned(), "GENERIC-SOFA".to_owned(), 60),
        OrderLine::new("order2".to_owned(), "GENERIC-SOFA".to_owned(), 41),
    ];
    let rebuilt = Batch::with_allocations(
        "batch1".to_owned(),
        "GENERIC-SOFA".to_owned(),
        100,
        None,
        too_much,
    );
    assert!(rebuilt.is_none());
}

#[test]
fn batch_equality_is_by_reference() {
    let a = Batch::new("ref-1".to_owned(), "SKU-A".to_owned(), 10, None);
    let b = Batch::new(
        "ref-1".to_owned(),
        "SKU-B".to_owned(),
        99,
        Some(Date::new(2011, 1, 1)),
    );
    let c = Batch::new("ref-2".to_owned(), "SKU-A".to_owned(), 10, None);
    assert_eq!(a, b);
    assert_ne!(a, c);
}

#[test]
fn order_line_equality_is_by_value() {
    let a = OrderLine::new("order-1".to_owned(), "SKU-A".to_owned(), 3);
    let b = OrderLine::new("order-1".to_owned(), "SKU-A".to_owned(), 3);
    let c = OrderLine::new("order-1".to_owned(), "SKU-A".to_owned(), 4);
    assert_eq!(a, b);
    assert_ne!(a, c);
}

#[test]
fn response_of_shapes_results() {
    assert_eq!(
        Response::of(Ok("batch-9".to_owned())),
        Response::Allocated("batch-9".to_owned())
    );
    assert_eq!(
        Response::of(Err(Error::OutOfStock("GONE-SKU".to_owned()))),
        Response::OutOfStock("GONE-SKU".to_owned())
    );
}
