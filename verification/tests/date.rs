use http::date::{current_imf_date, format_imf_fixdate};

#[test]
fn epoch_renders_as_imf_fixdate() {
    let s = String::from_utf8(format_imf_fixdate(0)).unwrap();
    assert_eq!(s, "Thu, 01 Jan 1970 00:00:00 GMT");
}

#[test]
fn classic_example_timestamp_renders_exactly() {
    let s = String::from_utf8(format_imf_fixdate(784111777)).unwrap();
    assert_eq!(s, "Sun, 06 Nov 1994 08:49:37 GMT");
}

#[test]
fn leap_day_and_century_rules_hold() {
    // 2000-02-29 12:00:00, in a leap year divisible by 400.
    let s = String::from_utf8(format_imf_fixdate(951825600)).unwrap();
    assert_eq!(s, "Tue, 29 Feb 2000 12:00:00 GMT");
    // 2100 is not a leap year: the day after 2100-02-28 is March 1st.
    let s = String::from_utf8(format_imf_fixdate(4107542400)).unwrap();
    assert_eq!(s, "Mon, 01 Mar 2100 00:00:00 GMT");
}

#[test]
fn current_date_has_the_fixdate_shape() {
    let d = String::from_utf8(current_imf_date()).unwrap();
    assert_eq!(d.len(), 29);
    assert!(d.ends_with(" GMT"));
    assert_eq!(&d[3..5], ", ");
}
