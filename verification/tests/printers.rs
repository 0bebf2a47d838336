use os_sim::printer_manager::PrinterManager;

#[test]
fn printers_are_handed_out_lowest_first() {
    let mut pm = PrinterManager::new(3);
    assert_eq!(pm.request(), Some(0));
    assert_eq!(pm.request(), Some(1));
    pm.release(0);
    assert_eq!(pm.request(), Some(0));
    assert_eq!(pm.request(), Some(2));
    assert_eq!(pm.request(), None);
}

#[test]
fn released_printer_can_be_had_again() {
    let mut pm = PrinterManager::new(1);
    assert_eq!(pm.request(), Some(0));
    assert_eq!(pm.request(), None);
    pm.release(0);
    assert_eq!(pm.request(), Some(0));
}
