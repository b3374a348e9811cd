use csv_transaction_processing::InputError;
use csv_transaction_processing::process_csv;

#[test]
fn sample_data_passes() {
    let sample_data = "type,client,tx,amount\ndeposit,1,1,1.0\ndeposit,2,2,2.0\ndeposit,1,3,2.0\nwithdrawal,1,4,1.5\nwithdrawal,2,5,3.0";
    let want = "client,available,held,total,locked\n1,1.5000,0.0000,1.5000,false\n2,2.0000,0.0000,2.0000,false\n";
    let got = process_csv(sample_data).unwrap();
    assert_eq!(got, want);
}

#[test]
fn dispute_handled_correctly() {
    let sample_data = "type,client,tx,amount\ndeposit,1,1,5.0\ndispute,1,1,\n";
    let want = "client,available,held,total,locked\n1,0.0000,5.0000,5.0000,false\n";
    let got = process_csv(sample_data).unwrap();
    assert_eq!(got, want);
}

#[test]
fn chargeback_handled_correctly() {
    let sample_data = "type,client,tx,amount\ndeposit,1,1,5.0\ndispute,1,1,0.0\nchargeback,1,1,\n";
    let want = "client,available,held,total,locked\n1,0.0000,0.0000,0.0000,true\n";
    let got = process_csv(sample_data).unwrap();
    assert_eq!(got, want);
}

#[test]
fn resolve_handled_correctly() {
    let sample_data = "type,client,tx,amount\ndeposit,1,1,5.0\ndispute,1,1,0.0\nresolve,1,1,\n";
    let want = "client,available,held,total,locked\n1,5.0000,0.0000,5.0000,false\n";
    let got = process_csv(sample_data).unwrap();
    assert_eq!(got, want);
}

#[test]
fn locked_account_ignores_later_records() {
    let input = "type,client,tx,amount\ndeposit,1,1,5.0\ndispute,1,1,\nchargeback,1,1,\ndeposit,1,9,100.0\n";
    let want = "client,available,held,total,locked\n1,0.0000,0.0000,0.0000,true\n";
    assert_eq!(process_csv(input).unwrap(), want);
}

#[test]
fn non_deposit_first_event_dropped() {
    let input = "type,client,tx,amount\nwithdrawal,7,1,1.0";
    let want = "client,available,held,total,locked\n";
    assert_eq!(process_csv(input).unwrap(), want);
}

#[test]
fn empty_input_gives_header_only() {
    assert_eq!(process_csv("").unwrap(), "client,available,held,total,locked\n");
}

#[test]
fn header_only_input_gives_header_only() {
    assert_eq!(
        process_csv("type,client,tx,amount\n").unwrap(),
        "client,available,held,total,locked\n"
    );
}

#[test]
fn wrong_header_is_an_error() {
    assert_eq!(process_csv("type,client,amount\n"), Err(InputError::Header));
}

#[test]
fn non_numeric_amount_is_an_error() {
    let input = "type,client,tx,amount\ndeposit,1,1,abc\n";
    assert_eq!(process_csv(input), Err(InputError::Record));
}

#[test]
fn five_fractional_digits_are_an_error() {
    let input = "type,client,tx,amount\ndeposit,1,1,1.00001\n";
    assert_eq!(process_csv(input), Err(InputError::Record));
}

#[test]
fn negative_amount_is_an_error() {
    let input = "type,client,tx,amount\ndeposit,1,1,-1.0\n";
    assert_eq!(process_csv(input), Err(InputError::Record));
}

#[test]
fn missing_amount_on_deposit_is_an_error() {
    let input = "type,client,tx,amount\ndeposit,1,1,\n";
    assert_eq!(process_csv(input), Err(InputError::Record));
}

#[test]
fn client_out_of_range_is_an_error() {
    let input = "type,client,tx,amount\ndeposit,65536,1,1.0\n";
    assert_eq!(process_csv(input), Err(InputError::Record));
}

#[test]
fn client_at_range_end_is_accepted() {
    let input = "type,client,tx,amount\ndeposit,65535,1,1.0\n";
    let want = "client,available,held,total,locked\n65535,1.0000,0.0000,1.0000,false\n";
    assert_eq!(process_csv(input).unwrap(), want);
}

#[test]
fn tx_id_out_of_range_is_an_error() {
    let input = "type,client,tx,amount\ndeposit,1,4294967296,1.0\n";
    assert_eq!(process_csv(input), Err(InputError::Record));
}

#[test]
fn unknown_kind_is_an_error() {
    let input = "type,client,tx,amount\ntransfer,1,1,1.0\n";
    assert_eq!(process_csv(input), Err(InputError::Record));
}

#[test]
fn dispute_of_unknown_tx_is_dropped() {
    let input = "type,client,tx,amount\ndeposit,1,1,5.0\ndispute,1,42,\n";
    let want = "client,available,held,total,locked\n1,5.0000,0.0000,5.0000,false\n";
    assert_eq!(process_csv(input).unwrap(), want);
}

#[test]
fn resolve_of_undisputed_tx_is_dropped() {
    let input = "type,client,tx,amount\ndeposit,1,1,5.0\nresolve,1,1,\n";
    let want = "client,available,held,total,locked\n1,5.0000,0.0000,5.0000,false\n";
    assert_eq!(process_csv(input).unwrap(), want);
}

#[test]
fn chargeback_of_undisputed_tx_is_dropped() {
    let input = "type,client,tx,amount\ndeposit,1,1,5.0\nchargeback,1,1,\n";
    let want = "client,available,held,total,locked\n1,5.0000,0.0000,5.0000,false\n";
    assert_eq!(process_csv(input).unwrap(), want);
}

#[test]
fn insufficient_withdrawal_is_dropped() {
    let input = "type,client,tx,amount\ndeposit,1,1,2.0\nwithdrawal,1,2,3.0\n";
    let want = "client,available,held,total,locked\n1,2.0000,0.0000,2.0000,false\n";
    assert_eq!(process_csv(input).unwrap(), want);
}

#[test]
fn carriage_return_line_endings_are_accepted() {
    let input = "type,client,tx,amount\r\ndeposit,1,1,1.0\r\nwithdrawal,1,2,0.25\r\n";
    let want = "client,available,held,total,locked\n1,0.7500,0.0000,0.7500,false\n";
    assert_eq!(process_csv(input).unwrap(), want);
}

#[test]
fn blank_lines_are_skipped() {
    let input = "type,client,tx,amount\n\ndeposit,1,1,1.0\n\n\nwithdrawal,1,2,0.5\n";
    let want = "client,available,held,total,locked\n1,0.5000,0.0000,0.5000,false\n";
    assert_eq!(process_csv(input).unwrap(), want);
}

#[test]
fn dispute_can_drive_available_negative() {
    let input = "type,client,tx,amount\ndeposit,1,1,5.0\nwithdrawal,1,2,3.0\ndispute,1,1,\n";
    let want = "client,available,held,total,locked\n1,-3.0000,5.0000,2.0000,false\n";
    assert_eq!(process_csv(input).unwrap(), want);
}

#[test]
fn re_dispute_applies_twice() {
    let input = "type,client,tx,amount\ndeposit,1,1,5.0\ndispute,1,1,\ndispute,1,1,\n";
    let want = "client,available,held,total,locked\n1,-5.0000,10.0000,5.0000,false\n";
    assert_eq!(process_csv(input).unwrap(), want);
}

#[test]
fn duplicate_tx_id_last_write_wins() {
    let input = "type,client,tx,amount\ndeposit,1,1,5.0\ndeposit,1,1,2.0\ndispute,1,1,\n";
    let want = "client,available,held,total,locked\n1,5.0000,2.0000,7.0000,false\n";
    assert_eq!(process_csv(input).unwrap(), want);
}

#[test]
fn dispute_does_not_check_the_client() {
    let input = "type,client,tx,amount\ndeposit,1,1,5.0\ndeposit,2,2,3.0\ndispute,2,1,\n";
    let want = "client,available,held,total,locked\n1,5.0000,0.0000,5.0000,false\n2,-2.0000,5.0000,3.0000,false\n";
    assert_eq!(process_csv(input).unwrap(), want);
}

#[test]
fn amounts_without_dot_or_without_parts_are_accepted() {
    let input = "type,client,tx,amount\ndeposit,1,1,5\ndeposit,1,2,.5\ndeposit,1,3,5.\n";
    let want = "client,available,held,total,locked\n1,10.5000,0.0000,10.5000,false\n";
    assert_eq!(process_csv(input).unwrap(), want);
}

#[test]
fn lone_dot_amount_is_an_error() {
    let input = "type,client,tx,amount\ndeposit,1,1,.\n";
    assert_eq!(process_csv(input), Err(InputError::Record));
}

#[test]
fn whitespace_in_a_numeric_field_is_an_error() {
    let input = "type,client,tx,amount\ndeposit, 1,1,1.0\n";
    assert_eq!(process_csv(input), Err(InputError::Record));
}

#[test]
fn largest_amount_is_kept_exactly_and_overflow_is_dropped() {
    let input = "type,client,tx,amount\ndeposit,1,1,922337203685477.5807\ndeposit,1,2,922337203685477.5807\n";
    let want = "client,available,held,total,locked\n1,922337203685477.5807,0.0000,922337203685477.5807,false\n";
    assert_eq!(process_csv(input).unwrap(), want);
}

#[test]
fn amount_beyond_the_scale_is_an_error() {
    let input = "type,client,tx,amount\ndeposit,1,1,922337203685477.5808\n";
    assert_eq!(process_csv(input), Err(InputError::Record));
}

#[test]
fn extra_field_is_an_error() {
    let input = "type,client,tx,amount\ndeposit,1,1,1.0,extra\n";
    assert_eq!(process_csv(input), Err(InputError::Record));
}

#[test]
fn missing_field_is_an_error() {
    let input = "type,client,tx,amount\ndeposit,1,1\n";
    assert_eq!(process_csv(input), Err(InputError::Record));
}

#[test]
fn lifecycle_amount_value_is_ignored() {
    let input = "type,client,tx,amount\ndeposit,1,1,5.0\ndispute,1,1,99.0\n";
    let want = "client,available,held,total,locked\n1,0.0000,5.0000,5.0000,false\n";
    assert_eq!(process_csv(input).unwrap(), want);
}
