use prime_search::prime_number::PrimeNumber;

#[test]
fn a_record_keeps_what_it_was_given() {
    let record = PrimeNumber::new(
        101,
        String::from("2024-06-01 12:00:00"),
        String::from("1.5"),
    );
    assert_eq!(record.number, 101);
    assert_eq!(record.created_at, "2024-06-01 12:00:00");
    assert_eq!(record.elapsed_secs, "1.5");
}
