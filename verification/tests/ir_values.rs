use synth::ir::IRValue;

#[test]
fn can_construct_int_data() {
    let int_data = IRValue::INT(123);
    assert_eq!(true, true);
    assert_eq!(int_data, IRValue::INT(123));
}
