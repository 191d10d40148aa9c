use std::collections::HashMap;
use loongarch_decompiler::counter::Counter;
use loongarch_decompiler::data_convert::{get_c_string, get_c_string_from_data, get_index_at_vec, get_key_from_value, set_signed, set_unsigned};
use loongarch_decompiler::data_flow::extern_function::analyse_extern_function;
use loongarch_decompiler::data_flow::{Number, RegisterRecord, Size};

#[test]
fn counter_counts_from_zero() {
    let mut c = Counter::new();
    assert_eq!(c.get(), 0);
    assert_eq!(c.get(), 1);
    assert_eq!(c.next(), Some(2));
    assert_eq!(c.get(), 3);
}

#[test]
fn sign_conversions() {
    assert_eq!(set_signed(Size::Unsigned32), Size::Signed32);
    assert_eq!(set_signed(Size::Signed8), Size::Signed8);
    assert_eq!(set_unsigned(Size::Signed64), Size::Unsigned64);
    assert_eq!(set_unsigned(Size::Unsigned16), Size::Unsigned16);
    for s in [Size::Signed8, Size::Unsigned8, Size::Signed16, Size::Unsigned16, Size::Signed32, Size::Unsigned32, Size::Signed64, Size::Unsigned64] {
        assert_eq!(set_signed(set_unsigned(s)), set_signed(s));
        assert_eq!(set_unsigned(set_signed(s)), set_unsigned(s));
        assert_eq!(set_signed(set_signed(s)), set_signed(s));
    }
}

#[test]
fn index_of_the_first_equal_element() {
    let v = vec![4, 7, 9, 7];
    assert_eq!(get_index_at_vec(&v, 7), Some(1));
    assert_eq!(get_index_at_vec(&v, 4), Some(0));
    assert_eq!(get_index_at_vec(&v, 5), None);
    let e: Vec<u8> = Vec::new();
    assert_eq!(get_index_at_vec(&e, 1), None);
}

#[test]
fn key_of_a_value() {
    let mut m = HashMap::new();
    m.insert(3usize, (1usize, 2usize));
    m.insert(8usize, (5usize, 6usize));
    assert_eq!(get_key_from_value(&m, (5, 6)), Some(8));
    assert_eq!(get_key_from_value(&m, (1, 2)), Some(3));
    assert_eq!(get_key_from_value(&m, (2, 1)), None);
}

#[test]
fn c_string_up_to_the_terminator() {
    let bytes = b"ab\0cd\0".to_vec();
    assert_eq!(get_c_string(0, &bytes), "ab");
    assert_eq!(get_c_string(3, &bytes), "cd");
    assert_eq!(get_c_string(2, &bytes), "");
}

#[test]
fn c_string_from_data_segments() {
    let mut data = HashMap::new();
    data.insert(0x1000u64, b"xhi\n\tthere\0".to_vec());
    data.insert(0x2000u64, b"zzok\0".to_vec());
    assert_eq!(get_c_string_from_data(0x1001, &data), Some(String::from("hi\\n\\tthere")));
    assert_eq!(get_c_string_from_data(0x2002, &data), Some(String::from("ok")));
    assert_eq!(get_c_string_from_data(0x1000, &data), None);
    assert_eq!(get_c_string_from_data(0x3000, &data), None);
}

#[test]
fn arity_of_library_functions() {
    let mut data = HashMap::new();
    data.insert(0x1000u64, b"x%d and %s\n\0".to_vec());
    let fmt = vec![RegisterRecord::Number(Number { value: 0x1001, signed: false, size: Size::Unsigned64 })];
    assert_eq!(analyse_extern_function(&String::from("printf"), &fmt, &data), (3, false));
    assert_eq!(analyse_extern_function(&String::from("rand"), &vec![], &data), (0, true));
    assert_eq!(analyse_extern_function(&String::from("puts"), &vec![], &data), (1, true));
    assert_eq!(analyse_extern_function(&String::from("exit"), &vec![], &data), (0, false));
}
