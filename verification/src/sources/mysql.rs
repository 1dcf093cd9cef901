//! MySQL as a source: how a connection is set up, and how the columns and
//! cells of the server become canonical ones.

use vstd::prelude::*;
use vstd::string::StringExecFns;
use vstd::utf8::{decode_utf8, valid_utf8};
use crate::calendar::{date_and_time, date_exists, date_from_ymd, time_exists, time_from_hms};
use crate::commands::common::MysqlConfigOptions;
use crate::commands::{MysqlSourceOptions, same_mysql_options};
use crate::definitions::{
    ColumnInfo, ColumnInfoView, ColumnType, ConversionError, Date, DateTime, Row, Time, Value,
    ValueView, batch_view, columns_view, row_view,
};
use crate::sources::{count_query_of, exhausted_after, pulled, rows_to_fetch, wrap_for_count};
use crate::text::{text_from_utf8, text_of, texts_of};

verus! {

/// The parameters of a connection to a MySQL server as mathematical
/// values.
pub struct MysqlParamsView {
    pub hostname: Option<Seq<char>>,
    pub username: Option<Seq<char>>,
    pub password: Option<Seq<char>>,
    pub port: Option<u16>,
    pub socket: Option<Seq<char>>,
    pub database: Option<Seq<char>>,
    pub init: Seq<Seq<char>>,
    pub timeout: Option<u64>,
}

/// What tells how to reach a MySQL server.
pub trait GetMysqlConnectionParams {
    spec fn params(&self) -> MysqlParamsView;

    fn get_hostname(&self) -> (r: &Option<String>)
        ensures
            text_of(*r) == self.params().hostname,
    ;

    fn get_username(&self) -> (r: &Option<String>)
        ensures
            text_of(*r) == self.params().username,
    ;

    fn get_password(&self) -> (r: &Option<String>)
        ensures
            text_of(*r) == self.params().password,
    ;

    fn get_port(&self) -> (r: &Option<u16>)
        ensures
            *r == self.params().port,
    ;

    fn get_socket(&self) -> (r: &Option<String>)
        ensures
            text_of(*r) == self.params().socket,
    ;

    fn get_database(&self) -> (r: &Option<String>)
        ensures
            text_of(*r) == self.params().database,
    ;

    fn get_init(&self) -> (r: &Vec<String>)
        ensures
            texts_of(r@) == self.params().init,
    ;

    fn get_timeout(&self) -> (r: &Option<u64>)
        ensures
            *r == self.params().timeout,
    ;
}

impl GetMysqlConnectionParams for MysqlSourceOptions {
    open spec fn params(&self) -> MysqlParamsView {
        MysqlParamsView {
            hostname: text_of(self.host),
            username: text_of(self.user),
            password: text_of(self.password),
            port: self.port,
            socket: text_of(self.socket),
            database: text_of(self.database),
            init: texts_of(self.init@),
            timeout: self.timeout,
        }
    }

    fn get_hostname(&self) -> &Option<String> {
        &self.host
    }

    fn get_username(&self) -> &Option<String> {
        &self.user
    }

    fn get_password(&self) -> &Option<String> {
        &self.password
    }

    fn get_port(&self) -> &Option<u16> {
        &self.port
    }

    fn get_socket(&self) -> &Option<String> {
        &self.socket
    }

    fn get_database(&self) -> &Option<String> {
        &self.database
    }

    fn get_init(&self) -> &Vec<String> {
        &self.init
    }

    fn get_timeout(&self) -> &Option<u64> {
        &self.timeout
    }
}

impl GetMysqlConnectionParams for MysqlConfigOptions {
    open spec fn params(&self) -> MysqlParamsView {
        MysqlParamsView {
            hostname: text_of(self.host),
            username: text_of(self.user),
            password: text_of(self.password),
            port: self.port,
            socket: text_of(self.socket),
            database: text_of(self.database),
            init: texts_of(self.init@),
            timeout: self.timeout,
        }
    }

    fn get_hostname(&self) -> &Option<String> {
        &self.host
    }

    fn get_username(&self) -> &Option<String> {
        &self.user
    }

    fn get_password(&self) -> &Option<String> {
        &self.password
    }

    fn get_port(&self) -> &Option<u16> {
        &self.port
    }

    fn get_socket(&self) -> &Option<String> {
        &self.socket
    }

    fn get_database(&self) -> &Option<String> {
        &self.database
    }

    fn get_init(&self) -> &Vec<String> {
        &self.init
    }

    fn get_timeout(&self) -> &Option<u64> {
        &self.timeout
    }
}

/// Where a MySQL server listens.
#[derive(Debug, PartialEq, Eq)]
pub enum MysqlEndpoint {
    /// A socket of the file system.
    Socket(String),
    /// A TCP port of a host.
    Tcp { host: String, port: u16 },
}

/// What a connection to a MySQL server is opened with.
#[derive(Debug, PartialEq, Eq)]
pub struct MysqlConnectionSettings {
    pub db_name: Option<String>,
    pub user: Option<String>,
    pub pass: Option<String>,
    /// The timeout, in seconds, for connecting, for reading and for
    /// writing.
    pub timeout: Option<u64>,
    pub endpoint: MysqlEndpoint,
    /// Statements that are run when the connection is made.
    pub init: Vec<String>,
}

/// An endpoint as a mathematical value.
pub enum MysqlEndpointView {
    Socket(Seq<char>),
    Tcp { host: Seq<char>, port: u16 },
}

/// The settings of a connection as mathematical values.
pub struct MysqlSettingsView {
    pub db_name: Option<Seq<char>>,
    pub user: Option<Seq<char>>,
    pub pass: Option<Seq<char>>,
    pub timeout: Option<u64>,
    pub endpoint: MysqlEndpointView,
    pub init: Seq<Seq<char>>,
}

impl View for MysqlEndpoint {
    type V = MysqlEndpointView;

    open spec fn view(&self) -> MysqlEndpointView {
        match self {
            MysqlEndpoint::Socket(path) => MysqlEndpointView::Socket(path@),
            MysqlEndpoint::Tcp { host, port } => MysqlEndpointView::Tcp { host: host@, port: *port },
        }
    }
}

impl View for MysqlConnectionSettings {
    type V = MysqlSettingsView;

    open spec fn view(&self) -> MysqlSettingsView {
        MysqlSettingsView {
            db_name: text_of(self.db_name),
            user: text_of(self.user),
            pass: text_of(self.pass),
            timeout: self.timeout,
            endpoint: self.endpoint@,
            init: texts_of(self.init@),
        }
    }
}

/// The port that a MySQL server listens on where none is named.
pub const DEFAULT_MYSQL_PORT: u16 = 3306;

/// The settings that belong to the parameters: a socket where one is
/// named, else the host, or `localhost` where none is named, and the port,
/// or 3306 where none is named.
pub open spec fn settings_of(params: MysqlParamsView) -> MysqlSettingsView {
    MysqlSettingsView {
        db_name: params.database,
        user: params.username,
        pass: params.password,
        timeout: params.timeout,
        endpoint: match params.socket {
            Some(path) => MysqlEndpointView::Socket(path),
            None => MysqlEndpointView::Tcp {
                host: match params.hostname {
                    Some(host) => host,
                    None => "localhost"@,
                },
                port: match params.port {
                    Some(port) => port,
                    None => DEFAULT_MYSQL_PORT,
                },
            },
        },
        init: params.init,
    }
}

/// The settings with which a connection to the server of the options is
/// opened.
pub fn mysql_connection_settings<P: GetMysqlConnectionParams>(mysql_options: &P) -> (r:
    MysqlConnectionSettings)
    ensures
        r@ == settings_of(mysql_options.params()),
{
    let endpoint = match mysql_options.get_socket() {
        Some(path) => MysqlEndpoint::Socket(path.clone()),
        None => {
            let host = match mysql_options.get_hostname() {
                Some(host) => host.clone(),
                None => String::from_str("localhost"),
            };
            let port = match mysql_options.get_port() {
                Some(port) => *port,
                None => DEFAULT_MYSQL_PORT,
            };
            MysqlEndpoint::Tcp { host, port }
        },
    };
    let given = mysql_options.get_init();
    let init = given.clone();
    assert(texts_of(init@) =~= texts_of(given@));
    MysqlConnectionSettings {
        db_name: mysql_options.get_database().clone(),
        user: mysql_options.get_username().clone(),
        pass: mysql_options.get_password().clone(),
        timeout: *mysql_options.get_timeout(),
        endpoint,
        init,
    }
}

/// A MySQL server as a source of rows.
#[derive(Debug, PartialEq, Eq)]
pub struct MysqlSource {
    pub options: MysqlSourceOptions,
}

impl MysqlSource {
    /// A source with a copy of the options.
    pub fn init(mysql_options: &MysqlSourceOptions) -> (r: MysqlSource)
        ensures
            same_mysql_options(r.options, *mysql_options),
    {
        MysqlSource { options: mysql_options.clone() }
    }

    /// The kind of the source.
    pub fn get_type_name(&self) -> (r: String)
        ensures
            r@ == "mysql"@,
    {
        String::from_str("mysql")
    }

    /// The name of the source.
    pub fn get_name(&self) -> (r: String)
        ensures
            r@ == "mysql"@,
    {
        String::from_str("mysql")
    }

    /// The settings with which the connection to the server is opened.
    pub fn connection_settings(&self) -> (r: MysqlConnectionSettings)
        ensures
            r@ == settings_of(self.options.params()),
    {
        mysql_connection_settings(&self.options)
    }

    /// The query that is run first to learn the number of rows, where the
    /// options ask for the count: the query of the options wrapped into
    /// `select count(*) from (..) q`.
    pub fn count_query(&self) -> (r: Option<String>)
        ensures
            match r {
                Some(text) => self.options.count && text@ == count_query_of(self.options.query@),
                None => !self.options.count,
            },
    {
        if self.options.count {
            Some(wrap_for_count(self.options.query.as_str()))
        } else {
            None
        }
    }
}

/// The column types of the MySQL protocol.
#[derive(Clone, Copy, Debug, PartialEq, Eq, Structural)]
pub enum MysqlColumnType {
    Decimal,
    Tiny,
    Short,
    Long,
    Float,
    Double,
    Null,
    Timestamp,
    LongLong,
    Int24,
    Date,
    Time,
    DateTime,
    Year,
    NewDate,
    Varchar,
    Bit,
    Timestamp2,
    DateTime2,
    Time2,
    TypedArray,
    Vector,
    Unknown,
    Json,
    NewDecimal,
    EnumType,
    SetType,
    TinyBlob,
    MediumBlob,
    LongBlob,
    Blob,
    VarString,
    String,
    Geometry,
}

/// The canonical type of a MySQL column type, where it has one. The flag
/// tells an unsigned integer column from a signed one.
pub open spec fn canonical_type(column_type: MysqlColumnType, unsigned: bool) -> Option<
    ColumnType,
> {
    match column_type {
        MysqlColumnType::Decimal => Some(ColumnType::Decimal),
        MysqlColumnType::NewDecimal => Some(ColumnType::Decimal),
        MysqlColumnType::Tiny => Some(
            if unsigned {
                ColumnType::U8
            } else {
                ColumnType::I8
            },
        ),
        MysqlColumnType::Short => Some(
            if unsigned {
                ColumnType::U16
            } else {
                ColumnType::I16
            },
        ),
        MysqlColumnType::Long => Some(
            if unsigned {
                ColumnType::U32
            } else {
                ColumnType::I32
            },
        ),
        MysqlColumnType::LongLong => Some(
            if unsigned {
                ColumnType::U64
            } else {
                ColumnType::I64
            },
        ),
        MysqlColumnType::Int24 => Some(
            if unsigned {
                ColumnType::U32
            } else {
                ColumnType::I32
            },
        ),
        MysqlColumnType::Varchar => Some(ColumnType::String),
        MysqlColumnType::VarString => Some(ColumnType::String),
        MysqlColumnType::String => Some(ColumnType::String),
        MysqlColumnType::Float => Some(ColumnType::F32),
        MysqlColumnType::Double => Some(ColumnType::F64),
        MysqlColumnType::Json => Some(ColumnType::JSON),
        MysqlColumnType::TinyBlob => Some(ColumnType::Bytes),
        MysqlColumnType::MediumBlob => Some(ColumnType::Bytes),
        MysqlColumnType::LongBlob => Some(ColumnType::Bytes),
        MysqlColumnType::Blob => Some(ColumnType::Bytes),
        MysqlColumnType::Timestamp => Some(ColumnType::Timestamp),
        MysqlColumnType::Timestamp2 => Some(ColumnType::Timestamp),
        MysqlColumnType::Date => Some(ColumnType::Date),
        MysqlColumnType::NewDate => Some(ColumnType::Date),
        MysqlColumnType::Time => Some(ColumnType::Time),
        MysqlColumnType::Time2 => Some(ColumnType::Time),
        MysqlColumnType::DateTime => Some(ColumnType::DateTime),
        MysqlColumnType::DateTime2 => Some(ColumnType::DateTime),
        MysqlColumnType::Year => Some(ColumnType::I64),
        MysqlColumnType::Null => None,
        MysqlColumnType::Bit => None,
        MysqlColumnType::TypedArray => None,
        MysqlColumnType::Vector => None,
        MysqlColumnType::Unknown => None,
        MysqlColumnType::EnumType => None,
        MysqlColumnType::SetType => None,
        MysqlColumnType::Geometry => None,
    }
}

/// The canonical type of a MySQL column type, where it has one.
pub fn mysql_column_type(column_type: MysqlColumnType, unsigned: bool) -> (r: Option<ColumnType>)
    ensures
        r == canonical_type(column_type, unsigned),
{
    match column_type {
        MysqlColumnType::Decimal | MysqlColumnType::NewDecimal => Some(ColumnType::Decimal),
        MysqlColumnType::Tiny => if unsigned {
            Some(ColumnType::U8)
        } else {
            Some(ColumnType::I8)
        },
        MysqlColumnType::Short => if unsigned {
            Some(ColumnType::U16)
        } else {
            Some(ColumnType::I16)
        },
        MysqlColumnType::Long | MysqlColumnType::Int24 => if unsigned {
            Some(ColumnType::U32)
        } else {
            Some(ColumnType::I32)
        },
        MysqlColumnType::LongLong => if unsigned {
            Some(ColumnType::U64)
        } else {
            Some(ColumnType::I64)
        },
        MysqlColumnType::Varchar | MysqlColumnType::VarString | MysqlColumnType::String => Some(
            ColumnType::String,
        ),
        MysqlColumnType::Float => Some(ColumnType::F32),
        MysqlColumnType::Double => Some(ColumnType::F64),
        MysqlColumnType::Json => Some(ColumnType::JSON),
        MysqlColumnType::TinyBlob
        | MysqlColumnType::MediumBlob
        | MysqlColumnType::LongBlob
        | MysqlColumnType::Blob => Some(ColumnType::Bytes),
        MysqlColumnType::Timestamp | MysqlColumnType::Timestamp2 => Some(ColumnType::Timestamp),
        MysqlColumnType::Date | MysqlColumnType::NewDate => Some(ColumnType::Date),
        MysqlColumnType::Time | MysqlColumnType::Time2 => Some(ColumnType::Time),
        MysqlColumnType::DateTime | MysqlColumnType::DateTime2 => Some(ColumnType::DateTime),
        MysqlColumnType::Year => Some(ColumnType::I64),
        _ => None,
    }
}

/// A column of a MySQL result set: its name, its type and whether its
/// values are unsigned.
#[derive(Clone, Debug, PartialEq, Eq)]
pub struct MysqlColumn {
    pub name: String,
    pub column_type: MysqlColumnType,
    pub unsigned: bool,
}

/// A MySQL column as a mathematical value.
pub struct MysqlColumnView {
    pub name: Seq<char>,
    pub column_type: MysqlColumnType,
    pub unsigned: bool,
}

impl View for MysqlColumn {
    type V = MysqlColumnView;

    open spec fn view(&self) -> MysqlColumnView {
        MysqlColumnView {
            name: self.name@,
            column_type: self.column_type,
            unsigned: self.unsigned,
        }
    }
}

/// The columns as mathematical values.
pub open spec fn mysql_columns_view(columns: Seq<MysqlColumn>) -> Seq<MysqlColumnView> {
    Seq::new(columns.len(), |i: int| columns[i]@)
}

/// Column `i` has a type without a canonical one.
pub open spec fn unsupported_column(columns: Seq<MysqlColumnView>, i: int) -> bool {
    0 <= i < columns.len() && canonical_type(columns[i].column_type, columns[i].unsigned) is None
}

/// The canonical description of a column whose type has a canonical one.
pub open spec fn described(column: MysqlColumnView) -> ColumnInfoView {
    ColumnInfoView {
        name: column.name,
        data_type: canonical_type(column.column_type, column.unsigned)->0,
    }
}

/// The canonical descriptions of the columns of a result set, in the
/// order of the columns; or the first column whose type has no canonical
/// one.
pub fn mysql_column_info(columns: &Vec<MysqlColumn>) -> (r: Result<Vec<ColumnInfo>, ConversionError>)
    ensures
        match r {
            Ok(info) => {
                &&& info@.len() == columns@.len()
                &&& forall|i: int| !unsupported_column(mysql_columns_view(columns@), i)
                &&& forall|i: int|
                    0 <= i < columns@.len() ==> (#[trigger] info@[i])@ == described(columns@[i]@)
            },
            Err(e) => {
                &&& e matches ConversionError::UnsupportedColumnType { column }
                &&& unsupported_column(mysql_columns_view(columns@), column as int)
                &&& forall|i: int|
                    0 <= i < column ==> !unsupported_column(mysql_columns_view(columns@), i)
            },
        },
{
    let mut result: Vec<ColumnInfo> = Vec::new();
    let mut i: usize = 0;
    while i < columns.len()
        invariant
            i <= columns@.len(),
            result@.len() == i,
            forall|j: int| 0 <= j < i ==> !unsupported_column(mysql_columns_view(columns@), j),
            forall|j: int| 0 <= j < i ==> (#[trigger] result@[j])@ == described(columns@[j]@),
        decreases columns@.len() - i,
    {
        let column = &columns[i];
        match mysql_column_type(column.column_type, column.unsigned) {
            Some(data_type) => {
                result.push(ColumnInfo::new(column.name.clone(), data_type));
            },
            None => {
                return Err(ConversionError::UnsupportedColumnType { column: i });
            },
        }
        i = i + 1;
    }
    Ok(result)
}

/// A cell as the MySQL protocol hands it over. Floating-point cells are
/// held as their bit patterns.
#[derive(Clone, Debug, PartialEq, Eq)]
pub enum MysqlValue {
    Null,
    Bytes(Vec<u8>),
    Int(i64),
    UInt(u64),
    Float(u32),
    Double(u64),
    Date { year: u16, month: u8, day: u8, hour: u8, minute: u8, second: u8, micro: u32 },
    Time { negative: bool, days: u32, hours: u8, minutes: u8, seconds: u8, micro: u32 },
}

/// A MySQL cell as a mathematical value.
pub enum MysqlValueView {
    Null,
    Bytes(Seq<u8>),
    Int(i64),
    UInt(u64),
    Float(u32),
    Double(u64),
    Date { year: u16, month: u8, day: u8, hour: u8, minute: u8, second: u8, micro: u32 },
    Time { negative: bool, days: u32, hours: u8, minutes: u8, seconds: u8, micro: u32 },
}

impl View for MysqlValue {
    type V = MysqlValueView;

    open spec fn view(&self) -> MysqlValueView {
        match *self {
            MysqlValue::Null => MysqlValueView::Null,
            MysqlValue::Bytes(bytes) => MysqlValueView::Bytes(bytes@),
            MysqlValue::Int(v) => MysqlValueView::Int(v),
            MysqlValue::UInt(v) => MysqlValueView::UInt(v),
            MysqlValue::Float(v) => MysqlValueView::Float(v),
            MysqlValue::Double(v) => MysqlValueView::Double(v),
            MysqlValue::Date { year, month, day, hour, minute, second, micro } => MysqlValueView::Date {
                year,
                month,
                day,
                hour,
                minute,
                second,
                micro,
            },
            MysqlValue::Time { negative, days, hours, minutes, seconds, micro } => MysqlValueView::Time {
                negative,
                days,
                hours,
                minutes,
                seconds,
                micro,
            },
        }
    }
}

/// The cells of a MySQL row as mathematical values.
pub open spec fn mysql_row_view(row: Seq<MysqlValue>) -> Seq<MysqlValueView> {
    Seq::new(row.len(), |i: int| row[i]@)
}

/// The canonical form of a date and time of the MySQL protocol in a
/// column of the given type: the date for a date column, the time of day
/// for a time column, both for a date-time or timestamp column.
pub open spec fn converted_date(
    data_type: ColumnType,
    year: u16,
    month: u8,
    day: u8,
    hour: u8,
    minute: u8,
    second: u8,
    column: usize,
) -> Result<ValueView, ConversionError> {
    let date = Date { year: year as i32, month: month as u32, day: day as u32 };
    let time = Time { hour: hour as u32, minute: minute as u32, second: second as u32 };
    let date_ok = date_exists(year as int, month as int, day as int);
    let time_ok = time_exists(hour as int, minute as int, second as int);
    match data_type {
        ColumnType::Date => if date_ok {
            Ok(ValueView::Date(date))
        } else {
            Err(ConversionError::InvalidDate { column })
        },
        ColumnType::DateTime | ColumnType::Timestamp => if !date_ok {
            Err(ConversionError::InvalidDate { column })
        } else if !time_ok {
            Err(ConversionError::InvalidTime { column })
        } else {
            Ok(ValueView::DateTime(DateTime { date, time }))
        },
        ColumnType::Time => if time_ok {
            Ok(ValueView::Time(time))
        } else {
            Err(ConversionError::InvalidTime { column })
        },
        _ => Err(ConversionError::UnsupportedConversion { column }),
    }
}

/// The canonical form of a MySQL cell in a column of the given type.
///
/// Integers and floating-point numbers keep their value, in the widest
/// form of their kind. Bytes become the text that they encode in UTF-8. A
/// date and time is read as the type of the column says. A time is
/// accepted only in a time column and only where it is not negative; its
/// count of days is not kept.
pub open spec fn converted_cell(data_type: ColumnType, cell: MysqlValueView, column: usize) -> Result<
    ValueView,
    ConversionError,
> {
    match cell {
        MysqlValueView::Null => Ok(ValueView::Null),
        MysqlValueView::Int(v) => Ok(ValueView::I64(v)),
        MysqlValueView::UInt(v) => Ok(ValueView::U64(v)),
        MysqlValueView::Float(v) => Ok(ValueView::F32(v)),
        MysqlValueView::Double(v) => Ok(ValueView::F64(v)),
        MysqlValueView::Bytes(bytes) => if valid_utf8(bytes) {
            Ok(ValueView::String(decode_utf8(bytes)))
        } else {
            Err(ConversionError::InvalidText { column })
        },
        MysqlValueView::Date { year, month, day, hour, minute, second, micro } => converted_date(
            data_type,
            year,
            month,
            day,
            hour,
            minute,
            second,
            column,
        ),
        MysqlValueView::Time { negative, days, hours, minutes, seconds, micro } => if data_type
            != ColumnType::Time {
            Err(ConversionError::UnsupportedConversion { column })
        } else if negative {
            Err(ConversionError::NegativeTime { column })
        } else if time_exists(hours as int, minutes as int, seconds as int) {
            Ok(
                ValueView::Time(
                    Time { hour: hours as u32, minute: minutes as u32, second: seconds as u32 },
                ),
            )
        } else {
            Err(ConversionError::InvalidTime { column })
        },
    }
}

/// The canonical forms of the first `n` cells of a row, or the failure of
/// the first cell among them that has none.
pub open spec fn converted_cells(
    columns: Seq<ColumnInfoView>,
    row: Seq<MysqlValueView>,
    n: nat,
) -> Result<Seq<ValueView>, ConversionError>
    decreases n,
{
    if n == 0 {
        Ok(Seq::empty())
    } else {
        match converted_cells(columns, row, (n - 1) as nat) {
            Err(e) => Err(e),
            Ok(cells) => match converted_cell(
                columns[n - 1].data_type,
                row[n - 1],
                (n - 1) as usize,
            ) {
                Ok(cell) => Ok(cells.push(cell)),
                Err(e) => Err(e),
            },
        }
    }
}

/// The canonical form of a row: that of its cells, where the row has as
/// many cells as the result set has columns.
pub open spec fn converted_row(columns: Seq<ColumnInfoView>, row: Seq<MysqlValueView>) -> Result<
    Seq<ValueView>,
    ConversionError,
> {
    if row.len() != columns.len() {
        Err(ConversionError::ColumnCountMismatch)
    } else {
        converted_cells(columns, row, row.len())
    }
}

/// The canonical forms of the first `n` rows, or the failure of the first
/// row among them that has none.
pub open spec fn converted_rows(
    columns: Seq<ColumnInfoView>,
    rows: Seq<Seq<MysqlValueView>>,
    n: nat,
) -> Result<Seq<Seq<ValueView>>, ConversionError>
    decreases n,
{
    if n == 0 {
        Ok(Seq::empty())
    } else {
        match converted_rows(columns, rows, (n - 1) as nat) {
            Err(e) => Err(e),
            Ok(done) => match converted_row(columns, rows[n - 1]) {
                Ok(row) => Ok(done.push(row)),
                Err(e) => Err(e),
            },
        }
    }
}

/// A converted row has one cell for each column.
pub proof fn lemma_converted_cells_len(
    columns: Seq<ColumnInfoView>,
    row: Seq<MysqlValueView>,
    n: nat,
)
    ensures
        converted_cells(columns, row, n) matches Ok(cells) ==> cells.len() == n,
    decreases n,
{
    if n > 0 {
        lemma_converted_cells_len(columns, row, (n - 1) as nat);
    }
}

/// Converted rows come one for each native row, and each has one cell for
/// each column.
pub proof fn lemma_converted_rows_shape(
    columns: Seq<ColumnInfoView>,
    rows: Seq<Seq<MysqlValueView>>,
    n: nat,
)
    ensures
        converted_rows(columns, rows, n) matches Ok(done) ==> {
            &&& done.len() == n
            &&& forall|i: int| 0 <= i < n ==> (#[trigger] done[i]).len() == columns.len()
            &&& forall|i: int|
                0 <= i < n ==> converted_row(columns, rows[i]) == Ok::<
                    Seq<ValueView>,
                    ConversionError,
                >(#[trigger] done[i])
        },
    decreases n,
{
    if n > 0 {
        lemma_converted_rows_shape(columns, rows, (n - 1) as nat);
        lemma_converted_cells_len(columns, rows[n - 1], rows[n - 1].len());
    }
}

/// The canonical form of one cell.
fn mysql_to_value(data_type: ColumnType, cell: &MysqlValue, column: usize) -> (r: Result<
    Value,
    ConversionError,
>)
    ensures
        match r {
            Ok(value) => converted_cell(data_type, cell@, column) == Ok::<
                ValueView,
                ConversionError,
            >(value@),
            Err(e) => converted_cell(data_type, cell@, column) == Err::<
                ValueView,
                ConversionError,
            >(e),
        },
{
    match cell {
        MysqlValue::Null => Ok(Value::Null),
        MysqlValue::Int(v) => Ok(Value::I64(*v)),
        MysqlValue::UInt(v) => Ok(Value::U64(*v)),
        MysqlValue::Float(v) => Ok(Value::F32(*v)),
        MysqlValue::Double(v) => Ok(Value::F64(*v)),
        MysqlValue::Bytes(bytes) => match text_from_utf8(bytes) {
            Some(text) => Ok(Value::String(text)),
            None => Err(ConversionError::InvalidText { column }),
        },
        MysqlValue::Date { year, month, day, hour, minute, second, micro } => {
            match data_type {
                ColumnType::Date => match date_from_ymd(*year as i32, *month as u32, *day as u32) {
                    Some(date) => Ok(Value::Date(date)),
                    None => Err(ConversionError::InvalidDate { column }),
                },
                ColumnType::DateTime | ColumnType::Timestamp => {
                    match date_from_ymd(*year as i32, *month as u32, *day as u32) {
                        None => Err(ConversionError::InvalidDate { column }),
                        Some(date) => match time_from_hms(
                            *hour as u32,
                            *minute as u32,
                            *second as u32,
                        ) {
                            None => Err(ConversionError::InvalidTime { column }),
                            Some(time) => Ok(Value::DateTime(date_and_time(date, time))),
                        },
                    }
                },
                ColumnType::Time => match time_from_hms(
                    *hour as u32,
                    *minute as u32,
                    *second as u32,
                ) {
                    Some(time) => Ok(Value::Time(time)),
                    None => Err(ConversionError::InvalidTime { column }),
                },
                _ => Err(ConversionError::UnsupportedConversion { column }),
            }
        },
        MysqlValue::Time { negative, days, hours, minutes, seconds, micro } => {
            match data_type {
                ColumnType::Time => {
                    if *negative {
                        Err(ConversionError::NegativeTime { column })
                    } else {
                        match time_from_hms(*hours as u32, *minutes as u32, *seconds as u32) {
                            Some(time) => Ok(Value::Time(time)),
                            None => Err(ConversionError::InvalidTime { column }),
                        }
                    }
                },
                _ => Err(ConversionError::UnsupportedConversion { column }),
            }
        },
    }
}

/// The rows of a fetch as mathematical values.
pub open spec fn mysql_batch_view(rows: Seq<Vec<MysqlValue>>) -> Seq<Seq<MysqlValueView>> {
    Seq::new(rows.len(), |i: int| mysql_row_view(rows[i]@))
}

/// What a pull gives for the rows that were fetched for it: nothing once
/// the cursor is exhausted or where no row was fetched; else the rows in
/// their canonical form and in the order in which they came. More rows
/// than a batch may hold are refused, and so is a row without a canonical
/// form.
pub open spec fn batch_outcome(
    exhausted: bool,
    batch_size: u64,
    columns: Seq<ColumnInfoView>,
    fetched: Seq<Seq<MysqlValueView>>,
) -> Result<Option<Seq<Seq<ValueView>>>, ConversionError> {
    pulled(exhausted, batch_size, fetched.len(), converted_rows(columns, fetched, fetched.len()))
}

/// Once a pull has given nothing, every later pull gives nothing,
/// whatever is fetched for it.
pub proof fn lemma_nothing_after_nothing(
    exhausted: bool,
    batch_size: u64,
    columns: Seq<ColumnInfoView>,
    first: Seq<Seq<MysqlValueView>>,
    second: Seq<Seq<MysqlValueView>>,
)
    requires
        batch_outcome(exhausted, batch_size, columns, first) == Ok::<
            Option<Seq<Seq<ValueView>>>,
            ConversionError,
        >(None),
    ensures
        batch_outcome(exhausted_after(exhausted, first.len()), batch_size, columns, second) == Ok::<
            Option<Seq<Seq<ValueView>>>,
            ConversionError,
        >(None),
{
}

/// Every batch that a pull gives holds at least one row and at most as
/// many as a batch may hold, in the order in which the rows were fetched,
/// and each of its rows has one cell for each column.
pub proof fn lemma_batch_shape(
    exhausted: bool,
    batch_size: u64,
    columns: Seq<ColumnInfoView>,
    fetched: Seq<Seq<MysqlValueView>>,
)
    ensures
        batch_outcome(exhausted, batch_size, columns, fetched) matches Ok(Some(rows)) ==> {
            &&& 0 < rows.len() <= batch_size
            &&& rows.len() == fetched.len()
            &&& forall|i: int| 0 <= i < rows.len() ==> (#[trigger] rows[i]).len() == columns.len()
            &&& forall|i: int|
                0 <= i < rows.len() ==> converted_row(columns, fetched[i]) == Ok::<
                    Seq<ValueView>,
                    ConversionError,
                >(#[trigger] rows[i])
        },
{
    lemma_converted_rows_shape(columns, fetched, fetched.len());
}

/// The cursor over the result of a query: it cuts the rows into batches
/// and brings them into their canonical form.
///
/// The rows themselves are fetched by the caller, who asks `fetch_limit`
/// how many to fetch and hands them to `next`.
#[derive(Debug)]
pub struct MysqlSourceBatchIterator {
    batch_size: u64,
    count: Option<u64>,
    column_info: Vec<ColumnInfo>,
    exhausted: bool,
}

impl MysqlSourceBatchIterator {
    /// The largest number of rows of a batch.
    pub closed spec fn batch_size(&self) -> u64 {
        self.batch_size
    }

    /// The number of rows of the result, where it was counted.
    pub closed spec fn count(&self) -> Option<u64> {
        self.count
    }

    /// The canonical descriptions of the columns.
    pub closed spec fn column_info(&self) -> Seq<ColumnInfoView> {
        columns_view(self.column_info@)
    }

    /// Whether a pull has found the cursor empty.
    pub closed spec fn exhausted(&self) -> bool {
        self.exhausted
    }

    /// The cursor over a result with the given columns. It fails where a
    /// column has a type without a canonical one.
    pub fn new(batch_size: u64, count: Option<u64>, columns: &Vec<MysqlColumn>) -> (r: Result<
        MysqlSourceBatchIterator,
        ConversionError,
    >)
        ensures
            match r {
                Ok(cursor) => {
                    &&& cursor.batch_size() == batch_size
                    &&& cursor.count() == count
                    &&& !cursor.exhausted()
                    &&& forall|i: int| !unsupported_column(mysql_columns_view(columns@), i)
                    &&& cursor.column_info() == Seq::new(
                        columns@.len(),
                        |i: int| described(columns@[i]@),
                    )
                },
                Err(e) => {
                    &&& e matches ConversionError::UnsupportedColumnType { column }
                    &&& unsupported_column(mysql_columns_view(columns@), column as int)
                    &&& forall|i: int|
                        0 <= i < column ==> !unsupported_column(mysql_columns_view(columns@), i)
                },
            },
    {
        match mysql_column_info(columns) {
            Ok(column_info) => {
                assert(columns_view(column_info@) =~= Seq::new(
                    columns@.len(),
                    |i: int| described(columns@[i]@),
                ));
                Ok(MysqlSourceBatchIterator { batch_size, count, column_info, exhausted: false })
            },
            Err(e) => Err(e),
        }
    }

    /// The canonical form of a row: one cell for each column, the type of
    /// the column deciding how a date or a time is read.
    pub fn mysql_to_row(column_info: &[ColumnInfo], mysql_row: &Vec<MysqlValue>) -> (r: Result<
        Row,
        ConversionError,
    >)
        ensures
            match r {
                Ok(row) => {
                    &&& converted_row(columns_view(column_info@), mysql_row_view(mysql_row@)) == Ok::<
                        Seq<ValueView>,
                        ConversionError,
                    >(row_view(row@))
                    &&& row@.len() == column_info@.len()
                },
                Err(e) => converted_row(columns_view(column_info@), mysql_row_view(mysql_row@))
                    == Err::<Seq<ValueView>, ConversionError>(e),
            },
    {
        let ghost columns = columns_view(column_info@);
        let ghost cells = mysql_row_view(mysql_row@);
        if mysql_row.len() != column_info.len() {
            return Err(ConversionError::ColumnCountMismatch);
        }
        let mut result: Row = Vec::new();
        let mut idx: usize = 0;
        assert(row_view(result@) =~= Seq::<ValueView>::empty());
        while idx < mysql_row.len()
            invariant
                idx <= mysql_row@.len(),
                mysql_row@.len() == column_info@.len(),
                columns == columns_view(column_info@),
                cells == mysql_row_view(mysql_row@),
                result@.len() == idx,
                converted_cells(columns, cells, idx as nat) == Ok::<Seq<ValueView>, ConversionError>(
                    row_view(result@),
                ),
            decreases mysql_row@.len() - idx,
        {
            let ghost before = row_view(result@);
            match mysql_to_value(column_info[idx].data_type, &mysql_row[idx], idx) {
                Ok(value) => {
                    result.push(value);
                    assert(row_view(result@) =~= before.push(value@));
                },
                Err(e) => {
                    proof {
                        lemma_first_failure_stays(columns, cells, idx as nat + 1, cells.len());
                    }
                    return Err(e);
                },
            }
            idx = idx + 1;
        }
        Ok(result)
    }

    /// The canonical descriptions of the columns, in the order of the
    /// columns.
    pub fn get_column_info(&self) -> (r: Vec<ColumnInfo>)
        ensures
            columns_view(r@) == self.column_info(),
    {
        let mut result: Vec<ColumnInfo> = Vec::new();
        let mut i: usize = 0;
        while i < self.column_info.len()
            invariant
                i <= self.column_info@.len(),
                result@.len() == i,
                forall|j: int| 0 <= j < i ==> (#[trigger] result@[j])@ == self.column_info@[j]@,
            decreases self.column_info@.len() - i,
        {
            let column = &self.column_info[i];
            result.push(ColumnInfo::new(column.name.clone(), column.data_type));
            i = i + 1;
        }
        assert(columns_view(result@) =~= columns_view(self.column_info@));
        result
    }

    /// The number of rows of the result, where it was counted before the
    /// query ran.
    pub fn get_count(&self) -> (r: Option<u64>)
        ensures
            r == self.count(),
    {
        self.count
    }

    /// The number of rows to fetch for the next pull: none once the cursor
    /// is exhausted, else as many as a batch may hold.
    pub fn fetch_limit(&self) -> (r: usize)
        ensures
            r == rows_to_fetch(self.exhausted(), self.batch_size()),
    {
        if self.exhausted {
            0
        } else if self.batch_size <= usize::MAX as u64 {
            self.batch_size as usize
        } else {
            usize::MAX
        }
    }

    /// Pulls the next batch out of the rows that were fetched for it.
    ///
    /// It gives nothing once the cursor is exhausted, and the cursor is
    /// exhausted as soon as no row was fetched. Else it gives the fetched
    /// rows in their canonical form, in the order in which they came.
    pub fn next(&mut self, fetched: &Vec<Vec<MysqlValue>>) -> (r: Result<
        Option<Vec<Row>>,
        ConversionError,
    >)
        ensures
            final(self).batch_size() == old(self).batch_size(),
            final(self).count() == old(self).count(),
            final(self).column_info() == old(self).column_info(),
            final(self).exhausted() == exhausted_after(old(self).exhausted(), fetched@.len()),
            match r {
                Ok(None) => batch_outcome(
                    old(self).exhausted(),
                    old(self).batch_size(),
                    old(self).column_info(),
                    mysql_batch_view(fetched@),
                ) == Ok::<Option<Seq<Seq<ValueView>>>, ConversionError>(None),
                Ok(Some(rows)) => {
                    &&& batch_outcome(
                        old(self).exhausted(),
                        old(self).batch_size(),
                        old(self).column_info(),
                        mysql_batch_view(fetched@),
                    ) == Ok::<Option<Seq<Seq<ValueView>>>, ConversionError>(
                        Some(batch_view(rows@)),
                    )
                    &&& 0 < rows@.len() <= old(self).batch_size()
                    &&& rows@.len() == fetched@.len()
                    &&& forall|i: int|
                        0 <= i < rows@.len() ==> (#[trigger] rows@[i])@.len() == old(
                            self,
                        ).column_info().len()
                },
                Err(e) => batch_outcome(
                    old(self).exhausted(),
                    old(self).batch_size(),
                    old(self).column_info(),
                    mysql_batch_view(fetched@),
                ) == Err::<Option<Seq<Seq<ValueView>>>, ConversionError>(e),
            },
    {
        if self.exhausted {
            return Ok(None);
        }
        if fetched.len() == 0 {
            self.exhausted = true;
            return Ok(None);
        }
        if fetched.len() as u64 > self.batch_size {
            return Err(ConversionError::TooManyRows);
        }
        let ghost columns = columns_view(self.column_info@);
        let ghost given = mysql_batch_view(fetched@);
        let mut rows: Vec<Row> = Vec::new();
        let mut i: usize = 0;
        assert(batch_view(rows@) =~= Seq::<Seq<ValueView>>::empty());
        while i < fetched.len()
            invariant
                i <= fetched@.len(),
                *self == *old(self),
                !self.exhausted,
                0 < fetched@.len() <= self.batch_size,
                columns == columns_view(self.column_info@),
                given == mysql_batch_view(fetched@),
                rows@.len() == i,
                converted_rows(columns, given, i as nat) == Ok::<
                    Seq<Seq<ValueView>>,
                    ConversionError,
                >(batch_view(rows@)),
                forall|j: int| 0 <= j < i ==> (#[trigger] rows@[j])@.len() == columns.len(),
            decreases fetched@.len() - i,
        {
            let ghost before = batch_view(rows@);
            match MysqlSourceBatchIterator::mysql_to_row(self.column_info.as_slice(), &fetched[i]) {
                Ok(row) => {
                    rows.push(row);
                    assert(batch_view(rows@) =~= before.push(row_view(row@)));
                },
                Err(e) => {
                    proof {
                        assert(given[i as int] == mysql_row_view(fetched@[i as int]@));
                        assert(converted_rows(columns, given, i as nat + 1) == Err::<
                            Seq<Seq<ValueView>>,
                            ConversionError,
                        >(e));
                        lemma_first_row_failure_stays(columns, given, i as nat + 1, given.len());
                    }
                    return Err(e);
                },
            }
            i = i + 1;
        }
        Ok(Some(rows))
    }
}

/// Once a cell has failed, the failure is that of every longer run of
/// cells.
pub proof fn lemma_first_failure_stays(
    columns: Seq<ColumnInfoView>,
    row: Seq<MysqlValueView>,
    n: nat,
    m: nat,
)
    requires
        n <= m,
        converted_cells(columns, row, n) is Err,
    ensures
        converted_cells(columns, row, m) == converted_cells(columns, row, n),
    decreases m,
{
    if n < m {
        lemma_first_failure_stays(columns, row, n, (m - 1) as nat);
    }
}

/// Once a row has failed, the failure is that of every longer run of
/// rows.
pub proof fn lemma_first_row_failure_stays(
    columns: Seq<ColumnInfoView>,
    rows: Seq<Seq<MysqlValueView>>,
    n: nat,
    m: nat,
)
    requires
        n <= m,
        converted_rows(columns, rows, n) is Err,
    ensures
        converted_rows(columns, rows, m) == converted_rows(columns, rows, n),
    decreases m,
{
    if n < m {
        lemma_first_row_failure_stays(columns, rows, n, (m - 1) as nat);
    }
}

} // verus!
