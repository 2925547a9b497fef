use lazyplan::dtype::{DataType, Field};
use lazyplan::expr::{StringFunction, StrptimeOptions};

fn input() -> Field {
    Field { name: "s".to_string(), dtype: DataType::String }
}

#[test]
fn string_function_output_types() {
    let f = input();
    let contains = StringFunction::Contains { literal: true, strict: false };
    assert_eq!(contains.get_field(&f), Field { name: "s".to_string(), dtype: DataType::Boolean });
    assert_eq!(StringFunction::LenChars.get_field(&f).dtype, DataType::UInt32);
    assert_eq!(StringFunction::Uppercase.get_field(&f).dtype, DataType::String);
    assert_eq!(StringFunction::Split(false).get_field(&f).dtype, DataType::List);
    assert_eq!(StringFunction::SplitExact { n: 2, inclusive: false }.get_field(&f).dtype, DataType::Struct(3));
    assert_eq!(StringFunction::SplitN(2).get_field(&f).dtype, DataType::Struct(2));
    assert_eq!(StringFunction::ToInteger(10, true).get_field(&f).dtype, DataType::Int64);
    assert_eq!(StringFunction::HexDecode(true).get_field(&f).dtype, DataType::Binary);
    let json = StringFunction::JsonDecode { dtype: None, infer_schema_len: Some(10) };
    assert_eq!(json.get_field(&f).dtype, DataType::Unknown);
    let opts = StrptimeOptions { format: Some("%Y".to_string()), strict: true, exact: true, cache: false };
    assert_eq!(StringFunction::Strptime(DataType::Date, opts).get_field(&f).dtype, DataType::Date);
}

#[test]
fn string_function_names() {
    assert_eq!(StringFunction::Contains { literal: false, strict: true }.to_string(), "str.contains");
    assert_eq!(StringFunction::Split(true).to_string(), "str.split_inclusive");
    assert_eq!(StringFunction::Split(false).to_string(), "str.split");
    assert_eq!(StringFunction::SplitExact { n: 1, inclusive: true }.to_string(), "str.split_exact_inclusive");
    assert_eq!(StringFunction::ZFill.to_string(), "str.zfill");
    assert_eq!(StringFunction::ConcatVertical { delimiter: ",".to_string(), ignore_nulls: true }.to_string(), "str.concat_vertical");
}
