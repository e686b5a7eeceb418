use snake_lets_go::Cell;

#[test]
fn test_cell() {
    let mut cell = Cell::Blank;
    cell.food();
    assert!(cell.id() >= 19 && cell.id() <= 23);
    cell.drug();
    assert!(cell.id() >= 26 && cell.id() <= 28);
    cell.fruit();
    assert!(matches!(cell, Cell::FruitGoldenApple));
    cell.drink();
    assert!(cell.id() >= 24 && cell.id() <= 25);
}

#[test]
fn cell_classification_ranges() {
    let mut cell = Cell::Blank;
    assert_eq!(cell.id(), 0);
    assert!(!cell.is_eatable());
    cell.snack();
    assert!(cell.is_snack() && cell.is_eatable() && !cell.is_body() && !cell.is_head());
    cell.body();
    assert!(cell.is_body() && !cell.is_eatable() && !cell.is_head());
    cell.head_normal();
    assert_eq!(cell.id(), 11);
    cell.head_happy();
    assert_eq!(cell.id(), 12);
    cell.head_unhappy();
    assert_eq!(cell.id(), 13);
    assert!(cell.is_head());
    cell.eatable();
    assert!(cell.is_eatable());
    cell.blank();
    assert_eq!(cell.id(), 0);
}
