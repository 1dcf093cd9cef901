use dbexport::commands::common::MysqlConfigOptions;
use dbexport::commands::{CSVDestinationOptions, DestinationCommand, MysqlSourceOptions};
use dbexport::definitions::{ColumnInfo, ColumnType, ConversionError, Date, DateTime, Time, Value};
use dbexport::sources::mysql::MysqlColumnType as T;
use dbexport::sources::mysql::{
    mysql_column_info, mysql_column_type, mysql_connection_settings, GetMysqlConnectionParams,
    MysqlColumn, MysqlColumnType, MysqlConnectionSettings, MysqlEndpoint, MysqlSource,
    MysqlSourceBatchIterator, MysqlValue,
};

fn source_options() -> MysqlSourceOptions {
    MysqlSourceOptions {
        host: Some("db.example.org".to_string()),
        user: Some("reader".to_string()),
        password: Some("secret".to_string()),
        port: Some(3307),
        socket: None,
        database: Some("shop".to_string()),
        init: vec!["set names utf8".to_string()],
        timeout: Some(30),
        query: "select * from orders".to_string(),
        count: true,
        destination: DestinationCommand::CSV(CSVDestinationOptions { filename: "out.csv".to_string() }),
    }
}

fn config_options() -> MysqlConfigOptions {
    MysqlConfigOptions {
        host: None,
        user: None,
        password: None,
        port: None,
        socket: None,
        database: None,
        init: vec![],
        timeout: None,
    }
}

fn column(name: &str, column_type: MysqlColumnType, unsigned: bool) -> MysqlColumn {
    MysqlColumn { name: name.to_string(), column_type, unsigned }
}

fn info(name: &str, data_type: ColumnType) -> ColumnInfo {
    ColumnInfo::new(name.to_string(), data_type)
}

fn date_value(year: u16, month: u8, day: u8, hour: u8, minute: u8, second: u8) -> MysqlValue {
    MysqlValue::Date { year, month, day, hour, minute, second, micro: 0 }
}

fn time_value(negative: bool, days: u32, hours: u8, minutes: u8, seconds: u8) -> MysqlValue {
    MysqlValue::Time { negative, days, hours, minutes, seconds, micro: 0 }
}

fn convert(data_type: ColumnType, cell: MysqlValue) -> Result<Vec<Value>, ConversionError> {
    MysqlSourceBatchIterator::mysql_to_row(&[info("c", data_type)], &vec![cell])
}

#[test]
fn mysql_init_keeps_the_options() {
    let options = source_options();
    let source = MysqlSource::init(&options);
    assert_eq!(source.options, options);
    assert_eq!(source.get_type_name(), "mysql");
    assert_eq!(source.get_name(), "mysql");
}

#[test]
fn mysql_getters_hand_out_the_fields() {
    let options = source_options();
    assert_eq!(options.get_hostname(), &Some("db.example.org".to_string()));
    assert_eq!(options.get_username(), &Some("reader".to_string()));
    assert_eq!(options.get_password(), &Some("secret".to_string()));
    assert_eq!(options.get_port(), &Some(3307));
    assert_eq!(options.get_socket(), &None);
    assert_eq!(options.get_database(), &Some("shop".to_string()));
    assert_eq!(options.get_init(), &vec!["set names utf8".to_string()]);
    assert_eq!(options.get_timeout(), &Some(30));
    let config = config_options();
    assert_eq!(config.get_hostname(), &None);
    assert_eq!(config.get_init(), &Vec::<String>::new());
}

#[test]
fn connection_settings_use_host_and_port_without_a_socket() {
    let settings = MysqlSource::init(&source_options()).connection_settings();
    assert_eq!(
        settings,
        MysqlConnectionSettings {
            db_name: Some("shop".to_string()),
            user: Some("reader".to_string()),
            pass: Some("secret".to_string()),
            timeout: Some(30),
            endpoint: MysqlEndpoint::Tcp { host: "db.example.org".to_string(), port: 3307 },
            init: vec!["set names utf8".to_string()],
        }
    );
}

#[test]
fn connection_settings_fall_back_to_localhost_and_3306() {
    let settings = mysql_connection_settings(&config_options());
    assert_eq!(
        settings,
        MysqlConnectionSettings {
            db_name: None,
            user: None,
            pass: None,
            timeout: None,
            endpoint: MysqlEndpoint::Tcp { host: "localhost".to_string(), port: 3306 },
            init: vec![],
        }
    );
}

#[test]
fn connection_settings_prefer_the_socket() {
    let mut options = config_options();
    options.socket = Some("/run/mysqld.sock".to_string());
    options.host = Some("ignored".to_string());
    options.port = Some(1);
    let settings = mysql_connection_settings(&options);
    assert_eq!(settings.endpoint, MysqlEndpoint::Socket("/run/mysqld.sock".to_string()));
}

#[test]
fn count_query_wraps_the_query() {
    let mut options = source_options();
    assert_eq!(
        MysqlSource::init(&options).count_query(),
        Some("select count(*) from (select * from orders) q".to_string())
    );
    options.count = false;
    assert_eq!(MysqlSource::init(&options).count_query(), None);
}

#[test]
fn column_types_follow_the_unsigned_flag() {
    assert_eq!(mysql_column_type(T::Tiny, false), Some(ColumnType::I8));
    assert_eq!(mysql_column_type(T::Tiny, true), Some(ColumnType::U8));
    assert_eq!(mysql_column_type(T::Short, false), Some(ColumnType::I16));
    assert_eq!(mysql_column_type(T::Short, true), Some(ColumnType::U16));
    assert_eq!(mysql_column_type(T::Long, false), Some(ColumnType::I32));
    assert_eq!(mysql_column_type(T::Long, true), Some(ColumnType::U32));
    assert_eq!(mysql_column_type(T::Int24, false), Some(ColumnType::I32));
    assert_eq!(mysql_column_type(T::Int24, true), Some(ColumnType::U32));
    assert_eq!(mysql_column_type(T::LongLong, false), Some(ColumnType::I64));
    assert_eq!(mysql_column_type(T::LongLong, true), Some(ColumnType::U64));
}

#[test]
fn column_types_of_the_other_kinds() {
    for unsigned in [false, true] {
        assert_eq!(mysql_column_type(T::Decimal, unsigned), Some(ColumnType::Decimal));
        assert_eq!(mysql_column_type(T::NewDecimal, unsigned), Some(ColumnType::Decimal));
        assert_eq!(mysql_column_type(T::Varchar, unsigned), Some(ColumnType::String));
        assert_eq!(mysql_column_type(T::VarString, unsigned), Some(ColumnType::String));
        assert_eq!(mysql_column_type(T::String, unsigned), Some(ColumnType::String));
        assert_eq!(mysql_column_type(T::Float, unsigned), Some(ColumnType::F32));
        assert_eq!(mysql_column_type(T::Double, unsigned), Some(ColumnType::F64));
        assert_eq!(mysql_column_type(T::Json, unsigned), Some(ColumnType::JSON));
        assert_eq!(mysql_column_type(T::TinyBlob, unsigned), Some(ColumnType::Bytes));
        assert_eq!(mysql_column_type(T::MediumBlob, unsigned), Some(ColumnType::Bytes));
        assert_eq!(mysql_column_type(T::LongBlob, unsigned), Some(ColumnType::Bytes));
        assert_eq!(mysql_column_type(T::Blob, unsigned), Some(ColumnType::Bytes));
        assert_eq!(mysql_column_type(T::Timestamp, unsigned), Some(ColumnType::Timestamp));
        assert_eq!(mysql_column_type(T::Timestamp2, unsigned), Some(ColumnType::Timestamp));
        assert_eq!(mysql_column_type(T::Date, unsigned), Some(ColumnType::Date));
        assert_eq!(mysql_column_type(T::NewDate, unsigned), Some(ColumnType::Date));
        assert_eq!(mysql_column_type(T::Time, unsigned), Some(ColumnType::Time));
        assert_eq!(mysql_column_type(T::Time2, unsigned), Some(ColumnType::Time));
        assert_eq!(mysql_column_type(T::DateTime, unsigned), Some(ColumnType::DateTime));
        assert_eq!(mysql_column_type(T::DateTime2, unsigned), Some(ColumnType::DateTime));
        assert_eq!(mysql_column_type(T::Year, unsigned), Some(ColumnType::I64));
        for unsupported in [T::Null, T::Bit, T::TypedArray, T::Vector, T::Unknown, T::EnumType, T::SetType, T::Geometry] {
            assert_eq!(mysql_column_type(unsupported, unsigned), None);
        }
    }
}

#[test]
fn mysql_column_info_describes_each_column_in_order() {
    let columns = vec![
        column("id", MysqlColumnType::LongLong, true),
        column("name", MysqlColumnType::VarString, false),
        column("born", MysqlColumnType::Date, false),
    ];
    assert_eq!(
        mysql_column_info(&columns),
        Ok(vec![info("id", ColumnType::U64), info("name", ColumnType::String), info("born", ColumnType::Date)])
    );
    assert_eq!(mysql_column_info(&vec![]), Ok(vec![]));
}

#[test]
fn column_info_names_the_first_unsupported_column() {
    let columns = vec![
        column("id", MysqlColumnType::Long, false),
        column("shape", MysqlColumnType::Geometry, false),
        column("flags", MysqlColumnType::Bit, false),
    ];
    assert_eq!(mysql_column_info(&columns), Err(ConversionError::UnsupportedColumnType { column: 1 }));
    assert_eq!(
        MysqlSourceBatchIterator::new(10, None, &columns).err(),
        Some(ConversionError::UnsupportedColumnType { column: 1 })
    );
}

#[test]
fn numbers_keep_their_value() {
    assert_eq!(convert(ColumnType::I32, MysqlValue::Null), Ok(vec![Value::Null]));
    assert_eq!(convert(ColumnType::I32, MysqlValue::Int(-5)), Ok(vec![Value::I64(-5)]));
    assert_eq!(convert(ColumnType::U8, MysqlValue::UInt(200)), Ok(vec![Value::U64(200)]));
    assert_eq!(
        convert(ColumnType::F32, MysqlValue::Float(1.5f32.to_bits())),
        Ok(vec![Value::F32(1.5f32.to_bits())])
    );
    assert_eq!(
        convert(ColumnType::F64, MysqlValue::Double((-0.25f64).to_bits())),
        Ok(vec![Value::F64((-0.25f64).to_bits())])
    );
}

#[test]
fn bytes_become_the_text_that_they_encode() {
    assert_eq!(
        convert(ColumnType::String, MysqlValue::Bytes("grüße".as_bytes().to_vec())),
        Ok(vec![Value::String("grüße".to_string())])
    );
    assert_eq!(
        convert(ColumnType::Bytes, MysqlValue::Bytes(vec![])),
        Ok(vec![Value::String(String::new())])
    );
    assert_eq!(
        convert(ColumnType::String, MysqlValue::Bytes(vec![0x66, 0xff, 0x6f])),
        Err(ConversionError::InvalidText { column: 0 })
    );
    assert_eq!(
        convert(ColumnType::String, MysqlValue::Bytes(vec![0xc3])),
        Err(ConversionError::InvalidText { column: 0 })
    );
}

#[test]
fn a_date_is_read_as_the_column_says() {
    let cell = date_value(2024, 2, 29, 13, 14, 15);
    let date = Date { year: 2024, month: 2, day: 29 };
    let time = Time { hour: 13, minute: 14, second: 15 };
    assert_eq!(convert(ColumnType::Date, cell.clone()), Ok(vec![Value::Date(date)]));
    assert_eq!(convert(ColumnType::Time, cell.clone()), Ok(vec![Value::Time(time)]));
    assert_eq!(
        convert(ColumnType::DateTime, cell.clone()),
        Ok(vec![Value::DateTime(DateTime { date, time })])
    );
    assert_eq!(
        convert(ColumnType::Timestamp, cell.clone()),
        Ok(vec![Value::DateTime(DateTime { date, time })])
    );
    assert_eq!(
        convert(ColumnType::String, cell.clone()),
        Err(ConversionError::UnsupportedConversion { column: 0 })
    );
    assert_eq!(convert(ColumnType::I64, cell), Err(ConversionError::UnsupportedConversion { column: 0 }));
}

#[test]
fn a_date_that_does_not_exist_is_refused() {
    assert_eq!(
        convert(ColumnType::Date, date_value(2023, 2, 29, 0, 0, 0)),
        Err(ConversionError::InvalidDate { column: 0 })
    );
    assert_eq!(
        convert(ColumnType::Date, date_value(0, 0, 0, 0, 0, 0)),
        Err(ConversionError::InvalidDate { column: 0 })
    );
    assert_eq!(
        convert(ColumnType::DateTime, date_value(2024, 4, 31, 25, 0, 0)),
        Err(ConversionError::InvalidDate { column: 0 })
    );
    assert_eq!(
        convert(ColumnType::DateTime, date_value(2024, 4, 30, 24, 0, 0)),
        Err(ConversionError::InvalidTime { column: 0 })
    );
    assert_eq!(
        convert(ColumnType::Timestamp, date_value(2024, 4, 30, 23, 60, 0)),
        Err(ConversionError::InvalidTime { column: 0 })
    );
    // The date is not looked at in a time column.
    assert_eq!(
        convert(ColumnType::Time, date_value(0, 0, 0, 23, 59, 59)),
        Ok(vec![Value::Time(Time { hour: 23, minute: 59, second: 59 })])
    );
    assert_eq!(
        convert(ColumnType::Time, date_value(2024, 1, 1, 0, 0, 60)),
        Err(ConversionError::InvalidTime { column: 0 })
    );
}

#[test]
fn a_time_is_accepted_in_a_time_column_only() {
    assert_eq!(
        convert(ColumnType::Time, time_value(false, 0, 7, 8, 9)),
        Ok(vec![Value::Time(Time { hour: 7, minute: 8, second: 9 })])
    );
    // The days of the interval are not kept.
    assert_eq!(
        convert(ColumnType::Time, time_value(false, 3, 7, 8, 9)),
        Ok(vec![Value::Time(Time { hour: 7, minute: 8, second: 9 })])
    );
    assert_eq!(
        convert(ColumnType::DateTime, time_value(false, 0, 7, 8, 9)),
        Err(ConversionError::UnsupportedConversion { column: 0 })
    );
    assert_eq!(
        convert(ColumnType::Time, time_value(false, 0, 24, 0, 0)),
        Err(ConversionError::InvalidTime { column: 0 })
    );
}

#[test]
fn a_negative_time_is_refused() {
    assert_eq!(
        convert(ColumnType::Time, time_value(true, 0, 7, 8, 9)),
        Err(ConversionError::NegativeTime { column: 0 })
    );
    // The type of the column is looked at first.
    assert_eq!(
        convert(ColumnType::Date, time_value(true, 0, 7, 8, 9)),
        Err(ConversionError::UnsupportedConversion { column: 0 })
    );
}

#[test]
fn a_row_needs_one_cell_for_each_column() {
    let columns = [info("a", ColumnType::I64), info("b", ColumnType::String)];
    assert_eq!(
        MysqlSourceBatchIterator::mysql_to_row(&columns, &vec![MysqlValue::Int(1)]),
        Err(ConversionError::ColumnCountMismatch)
    );
    assert_eq!(
        MysqlSourceBatchIterator::mysql_to_row(&columns, &vec![MysqlValue::Int(1), MysqlValue::Null, MysqlValue::Null]),
        Err(ConversionError::ColumnCountMismatch)
    );
    assert_eq!(MysqlSourceBatchIterator::mysql_to_row(&[], &vec![]), Ok(vec![]));
    assert_eq!(
        MysqlSourceBatchIterator::mysql_to_row(
            &columns,
            &vec![MysqlValue::Int(1), MysqlValue::Bytes(b"x".to_vec())]
        ),
        Ok(vec![Value::I64(1), Value::String("x".to_string())])
    );
}

#[test]
fn the_first_cell_that_fails_decides() {
    let columns = [info("a", ColumnType::Date), info("b", ColumnType::String), info("c", ColumnType::Time)];
    let row = vec![
        date_value(2024, 1, 1, 0, 0, 0),
        MysqlValue::Bytes(vec![0xff]),
        time_value(true, 0, 0, 0, 0),
    ];
    assert_eq!(
        MysqlSourceBatchIterator::mysql_to_row(&columns, &row),
        Err(ConversionError::InvalidText { column: 1 })
    );
}

#[test]
fn two_rows_in_batches_of_one_with_the_count() {
    let columns = vec![column("id", MysqlColumnType::Long, false), column("name", MysqlColumnType::VarString, false)];
    let mut cursor = MysqlSourceBatchIterator::new(1, Some(2), &columns).unwrap();
    assert_eq!(cursor.get_count(), Some(2));
    assert_eq!(cursor.get_column_info(), vec![info("id", ColumnType::I32), info("name", ColumnType::String)]);
    assert_eq!(cursor.fetch_limit(), 1);
    let first = cursor.next(&vec![vec![MysqlValue::Int(1), MysqlValue::Bytes(b"ann".to_vec())]]);
    assert_eq!(first, Ok(Some(vec![vec![Value::I64(1), Value::String("ann".to_string())]])));
    assert_eq!(cursor.get_count(), Some(2));
    let second = cursor.next(&vec![vec![MysqlValue::Int(2), MysqlValue::Null]]);
    assert_eq!(second, Ok(Some(vec![vec![Value::I64(2), Value::Null]])));
    assert_eq!(cursor.get_count(), Some(2));
    assert_eq!(cursor.fetch_limit(), 1);
    assert_eq!(cursor.next(&vec![]), Ok(None));
    assert_eq!(cursor.get_count(), Some(2));
    assert_eq!(cursor.fetch_limit(), 0);
}

#[test]
fn every_row_of_a_batch_has_one_cell_for_each_column() {
    let columns = vec![column("a", MysqlColumnType::Long, false), column("b", MysqlColumnType::Double, false)];
    let mut cursor = MysqlSourceBatchIterator::new(3, None, &columns).unwrap();
    let width = cursor.get_column_info().len();
    let fetched = vec![
        vec![MysqlValue::Int(1), MysqlValue::Double(1.0f64.to_bits())],
        vec![MysqlValue::Int(2), MysqlValue::Null],
        vec![MysqlValue::Null, MysqlValue::Double(3.0f64.to_bits())],
    ];
    let batch = cursor.next(&fetched).unwrap().unwrap();
    assert_eq!(batch.len(), 3);
    assert!(batch.iter().all(|row| row.len() == width));
    assert_eq!(batch[0], vec![Value::I64(1), Value::F64(1.0f64.to_bits())]);
    assert_eq!(batch[1], vec![Value::I64(2), Value::Null]);
    assert_eq!(batch[2], vec![Value::Null, Value::F64(3.0f64.to_bits())]);
}

#[test]
fn nothing_comes_after_nothing() {
    let columns = vec![column("a", MysqlColumnType::Long, false)];
    let mut cursor = MysqlSourceBatchIterator::new(2, None, &columns).unwrap();
    assert_eq!(cursor.get_count(), None);
    assert_eq!(cursor.next(&vec![]), Ok(None));
    assert_eq!(cursor.next(&vec![vec![MysqlValue::Int(1)]]), Ok(None));
    assert_eq!(cursor.next(&vec![vec![MysqlValue::Int(1)], vec![], vec![]]), Ok(None));
    assert_eq!(cursor.next(&vec![]), Ok(None));
}

#[test]
fn more_rows_than_a_batch_holds_are_refused() {
    let columns = vec![column("a", MysqlColumnType::Long, false)];
    let mut cursor = MysqlSourceBatchIterator::new(1, None, &columns).unwrap();
    let two = vec![vec![MysqlValue::Int(1)], vec![MysqlValue::Int(2)]];
    assert_eq!(cursor.next(&two), Err(ConversionError::TooManyRows));
    // The cursor is not exhausted by the refusal.
    assert_eq!(cursor.next(&vec![vec![MysqlValue::Int(1)]]), Ok(Some(vec![vec![Value::I64(1)]])));
}

#[test]
fn a_batch_size_of_zero_fetches_nothing() {
    let columns = vec![column("a", MysqlColumnType::Long, false)];
    let mut cursor = MysqlSourceBatchIterator::new(0, None, &columns).unwrap();
    assert_eq!(cursor.fetch_limit(), 0);
    assert_eq!(cursor.next(&vec![vec![MysqlValue::Int(1)]]), Err(ConversionError::TooManyRows));
    assert_eq!(cursor.next(&vec![]), Ok(None));
}

#[test]
fn a_row_that_fails_fails_the_batch() {
    let columns = vec![column("a", MysqlColumnType::Long, false)];
    let mut cursor = MysqlSourceBatchIterator::new(5, None, &columns).unwrap();
    let fetched = vec![vec![MysqlValue::Int(1)], vec![MysqlValue::Int(1), MysqlValue::Int(2)], vec![]];
    assert_eq!(cursor.next(&fetched), Err(ConversionError::ColumnCountMismatch));
    let fetched = vec![vec![MysqlValue::Int(1)], vec![date_value(2024, 1, 1, 0, 0, 0)]];
    assert_eq!(cursor.next(&fetched), Err(ConversionError::UnsupportedConversion { column: 0 }));
}
