//! PostgreSQL as a source: how the server is addressed, which query is
//! run, and how the columns and cells of the server become canonical
//! ones.

use vstd::prelude::*;
use vstd::string::StringExecFns;
use crate::commands::common::PostgresConfigOptions;
use crate::commands::{PostgresSourceOptions, same_postgres_options};
use crate::definitions::{
    ColumnInfo, ColumnInfoView, ColumnType, ConversionError, Row, Value, ValueView, batch_view,
    row_view,
};
use crate::sources::{count_query_of, exhausted_after, pulled, rows_to_fetch, wrap_for_count};
use crate::text::{decimal, percent_encoded, push_decimal, text_of, texts_of, url_encode};
use crate::utils::{FAILURE_EXIT_CODE, Failure, query_error_report, query_failure};

verus! {

/// The parameters of a connection to a PostgreSQL server as mathematical
/// values.
pub struct PostgresParamsView {
    pub hostname: Option<Seq<char>>,
    pub username: Option<Seq<char>>,
    pub password: Option<Seq<char>>,
    pub port: Option<u16>,
    pub database: Option<Seq<char>>,
    pub init: Seq<Seq<char>>,
    pub timeout: Option<u64>,
}

/// What tells how to reach a PostgreSQL server.
pub trait GetPostgresConnectionParams {
    spec fn params(&self) -> PostgresParamsView;

    fn get_hostname(&self) -> (r: &Option<String>)
        ensures
            text_of(*r) == self.params().hostname,
    ;

    fn get_username(&self) -> (r: &Option<String>)
        ensures
            text_of(*r) == self.params().username,
    ;

    fn get_password(&self) -> (r: &Option<String>)
        ensures
            text_of(*r) == self.params().password,
    ;

    fn get_port(&self) -> (r: &Option<u16>)
        ensures
            *r == self.params().port,
    ;

    fn get_database(&self) -> (r: &Option<String>)
        ensures
            text_of(*r) == self.params().database,
    ;

    fn get_init(&self) -> (r: &Vec<String>)
        ensures
            texts_of(r@) == self.params().init,
    ;

    fn get_timeout(&self) -> (r: &Option<u64>)
        ensures
            *r == self.params().timeout,
    ;
}

impl GetPostgresConnectionParams for PostgresSourceOptions {
    open spec fn params(&self) -> PostgresParamsView {
        PostgresParamsView {
            hostname: text_of(self.host),
            username: text_of(self.user),
            password: text_of(self.password),
            port: self.port,
            database: text_of(self.database),
            init: texts_of(self.init@),
            timeout: self.timeout,
        }
    }

    fn get_hostname(&self) -> &Option<String> {
        &self.host
    }

    fn get_username(&self) -> &Option<String> {
        &self.user
    }

    fn get_password(&self) -> &Option<String> {
        &self.password
    }

    fn get_port(&self) -> &Option<u16> {
        &self.port
    }

    fn get_database(&self) -> &Option<String> {
        &self.database
    }

    fn get_init(&self) -> &Vec<String> {
        &self.init
    }

    fn get_timeout(&self) -> &Option<u64> {
        &self.timeout
    }
}

impl GetPostgresConnectionParams for PostgresConfigOptions {
    open spec fn params(&self) -> PostgresParamsView {
        PostgresParamsView {
            hostname: text_of(self.host),
            username: text_of(self.user),
            password: text_of(self.password),
            port: self.port,
            database: text_of(self.database),
            init: texts_of(self.init@),
            timeout: self.timeout,
        }
    }

    fn get_hostname(&self) -> &Option<String> {
        &self.host
    }

    fn get_username(&self) -> &Option<String> {
        &self.user
    }

    fn get_password(&self) -> &Option<String> {
        &self.password
    }

    fn get_port(&self) -> &Option<u16> {
        &self.port
    }

    fn get_database(&self) -> &Option<String> {
        &self.database
    }

    fn get_init(&self) -> &Vec<String> {
        &self.init
    }

    fn get_timeout(&self) -> &Option<u64> {
        &self.timeout
    }
}

/// A part of a URL that is left out where it has no value, and else
/// stands behind its mark.
pub open spec fn url_part(mark: Seq<char>, value: Option<Seq<char>>) -> Seq<char> {
    match value {
        Some(text) => mark + text,
        None => Seq::empty(),
    }
}

/// The percent-encoded form of an optional text.
pub open spec fn encoded_part(value: Option<Seq<char>>) -> Option<Seq<char>> {
    match value {
        Some(text) => Some(percent_encoded(text)),
        None => None,
    }
}

/// The port of a URL, written in decimal.
pub open spec fn port_text(port: Option<u16>) -> Option<Seq<char>> {
    match port {
        Some(p) => Some(decimal(p as nat)),
        None => None,
    }
}

/// The URL of a PostgreSQL server: `postgres://`, the user as given, `:`
/// and the password, `@` and the host, `:` and the port, `/` and the
/// database, each part only where it has a value, and password, host and
/// database percent-encoded.
pub open spec fn postgres_url_of(params: PostgresParamsView) -> Seq<char> {
    "postgres://"@ + url_part(Seq::empty(), params.username) + url_part(
        ":"@,
        encoded_part(params.password),
    ) + url_part("@"@, encoded_part(params.hostname)) + url_part(":"@, port_text(params.port))
        + url_part("/"@, encoded_part(params.database))
}

/// Appends a mark and the percent-encoded form of a value to a URL, where
/// there is a value.
fn push_encoded_part(url: &mut String, mark: &str, value: &Option<String>)
    ensures
        final(url)@ == old(url)@ + url_part(mark@, encoded_part(text_of(*value))),
{
    match value {
        Some(text) => {
            url.append(mark);
            let encoded = url_encode(text.as_str());
            url.append(encoded.as_str());
            assert(url@ =~= old(url)@ + (mark@ + percent_encoded(text@)));
        },
        None => {
            assert(url@ =~= old(url)@ + Seq::<char>::empty());
        },
    }
}

/// The URL under which the server of the options is reached.
pub fn get_postgres_url<P: GetPostgresConnectionParams>(postgres_options: &P) -> (r: String)
    ensures
        r@ == postgres_url_of(postgres_options.params()),
{
    let mut url = String::from_str("postgres://");
    match postgres_options.get_username() {
        Some(user) => {
            url.append(user.as_str());
            assert(url@ =~= "postgres://"@ + (Seq::<char>::empty() + user@));
        },
        None => {
            assert(url@ =~= "postgres://"@ + Seq::<char>::empty());
        },
    }
    push_encoded_part(&mut url, ":", postgres_options.get_password());
    push_encoded_part(&mut url, "@", postgres_options.get_hostname());
    let ghost before = url@;
    match postgres_options.get_port() {
        Some(port) => {
            url.append(":");
            push_decimal(&mut url, *port as u64);
            assert(url@ =~= before + (":"@ + decimal(*port as nat)));
        },
        None => {
            assert(url@ =~= before + Seq::<char>::empty());
        },
    }
    push_encoded_part(&mut url, "/", postgres_options.get_database());
    url
}

/// What comes next while a fresh connection is prepared.
#[derive(Debug, PartialEq, Eq)]
pub enum InitStep {
    /// Run this statement.
    Execute(String),
    /// Every statement has run: the connection is ready.
    Ready,
}

/// What comes next on a fresh connection on which the first `executed`
/// statements of the options have run: the statement after them, or
/// nothing more where all have run. The statements run in the order of
/// the options.
pub fn next_init_step<P: GetPostgresConnectionParams>(postgres_options: &P, executed: usize) -> (r:
    InitStep)
    ensures
        match r {
            InitStep::Execute(statement) => executed < postgres_options.params().init.len()
                && statement@ == postgres_options.params().init[executed as int],
            InitStep::Ready => executed >= postgres_options.params().init.len(),
        },
{
    let init = postgres_options.get_init();
    if executed < init.len() {
        assert(texts_of(init@)[executed as int] == init@[executed as int]@);
        InitStep::Execute(init[executed].clone())
    } else {
        InitStep::Ready
    }
}

/// How the tool ends where the statement after the first `executed` ones
/// has failed: with the report of that statement and of what the server
/// answered, and with exit code 1. No later statement is run.
pub fn init_failure<P: GetPostgresConnectionParams>(
    postgres_options: &P,
    executed: usize,
    error: &str,
) -> (r: Option<Failure>)
    ensures
        match r {
            Some(failure) => {
                &&& executed < postgres_options.params().init.len()
                &&& failure.message@ == query_error_report(
                    postgres_options.params().init[executed as int],
                    error@,
                )
                &&& failure.exit_code == FAILURE_EXIT_CODE
            },
            None => executed >= postgres_options.params().init.len(),
        },
{
    let init = postgres_options.get_init();
    if executed < init.len() {
        assert(texts_of(init@)[executed as int] == init@[executed as int]@);
        Some(query_failure(init[executed].as_str(), error))
    } else {
        None
    }
}

/// A PostgreSQL server as a source of rows.
#[derive(Debug, PartialEq, Eq)]
pub struct PostgresSource {
    pub options: PostgresSourceOptions,
}

/// Where the query of an export stands.
#[derive(Debug, PartialEq, Eq)]
pub enum QueryOrigin {
    /// The query itself was given.
    Inline(String),
    /// The query is the content of the file with this name.
    File(String),
}

/// The options name neither a query nor a file with one.
#[derive(Clone, Copy, Debug, PartialEq, Eq, Structural)]
pub struct MissingQuery;

impl PostgresSource {
    /// A source with a copy of the options.
    pub fn init(postgres_options: &PostgresSourceOptions) -> (r: PostgresSource)
        ensures
            same_postgres_options(r.options, *postgres_options),
    {
        PostgresSource { options: postgres_options.clone() }
    }

    /// The kind of the source.
    pub fn get_type_name(&self) -> (r: String)
        ensures
            r@ == "postgres"@,
    {
        String::from_str("postgres")
    }

    /// The name of the source.
    pub fn get_name(&self) -> (r: String)
        ensures
            r@ == "postgres"@,
    {
        String::from_str("postgres")
    }

    /// The URL under which the server is reached.
    pub fn connection_url(&self) -> (r: String)
        ensures
            r@ == postgres_url_of(self.options.params()),
    {
        get_postgres_url(&self.options)
    }

    /// The query that is run first to learn the number of rows of `query`,
    /// where the options ask for the count.
    pub fn count_query(&self, query: &str) -> (r: Option<String>)
        ensures
            match r {
                Some(text) => self.options.count && text@ == count_query_of(query@),
                None => !self.options.count,
            },
    {
        if self.options.count {
            Some(wrap_for_count(query))
        } else {
            None
        }
    }

    /// Where the query stands: in the options, where they hold one; else
    /// in the file that they name; and nowhere, where they name none.
    pub fn query_origin(&self) -> (r: Result<QueryOrigin, MissingQuery>)
        ensures
            match r {
                Ok(QueryOrigin::Inline(query)) => self.options.query == Some(query),
                Ok(QueryOrigin::File(name)) => self.options.query is None && self.options.query_file
                    == Some(name),
                Err(_) => self.options.query is None && self.options.query_file is None,
            },
    {
        match &self.options.query {
            Some(query) => Ok(QueryOrigin::Inline(query.clone())),
            None => match &self.options.query_file {
                Some(name) => Ok(QueryOrigin::File(name.clone())),
                None => Err(MissingQuery),
            },
        }
    }
}

/// A column of a PostgreSQL result set: its name, the name of its type,
/// and whether the type is a simple one (no array, range, domain or
/// composite).
#[derive(Clone, Debug, PartialEq, Eq)]
pub struct PostgresColumn {
    pub name: String,
    pub simple: bool,
    pub native_type: String,
}

/// A PostgreSQL column as a mathematical value.
pub struct PostgresColumnView {
    pub name: Seq<char>,
    pub simple: bool,
    pub native_type: Seq<char>,
}

impl View for PostgresColumn {
    type V = PostgresColumnView;

    open spec fn view(&self) -> PostgresColumnView {
        PostgresColumnView { name: self.name@, simple: self.simple, native_type: self.native_type@ }
    }
}

/// The columns as mathematical values.
pub open spec fn postgres_columns_view(columns: Seq<PostgresColumn>) -> Seq<PostgresColumnView> {
    Seq::new(columns.len(), |i: int| columns[i]@)
}

/// The canonical type of a PostgreSQL type, where it has one: the simple
/// types `int4`, `int8`, `float4`, `float8` and `text` have.
pub open spec fn canonical_type(simple: bool, native_type: Seq<char>) -> Option<ColumnType> {
    if !simple {
        None
    } else if native_type == "int4"@ {
        Some(ColumnType::I32)
    } else if native_type == "int8"@ {
        Some(ColumnType::I64)
    } else if native_type == "float4"@ {
        Some(ColumnType::F32)
    } else if native_type == "float8"@ {
        Some(ColumnType::F64)
    } else if native_type == "text"@ {
        Some(ColumnType::String)
    } else {
        None
    }
}

/// The canonical type of a PostgreSQL type, where it has one.
pub fn postgres_column_type(simple: bool, native_type: &String) -> (r: Option<ColumnType>)
    ensures
        r == canonical_type(simple, native_type@),
{
    if !simple {
        None
    } else if *native_type == String::from_str("int4") {
        Some(ColumnType::I32)
    } else if *native_type == String::from_str("int8") {
        Some(ColumnType::I64)
    } else if *native_type == String::from_str("float4") {
        Some(ColumnType::F32)
    } else if *native_type == String::from_str("float8") {
        Some(ColumnType::F64)
    } else if *native_type == String::from_str("text") {
        Some(ColumnType::String)
    } else {
        None
    }
}

/// Column `i` has a type without a canonical one.
pub open spec fn unsupported_column(columns: Seq<PostgresColumnView>, i: int) -> bool {
    0 <= i < columns.len() && canonical_type(columns[i].simple, columns[i].native_type) is None
}

/// The canonical description of a column whose type has a canonical one.
pub open spec fn described(column: PostgresColumnView) -> ColumnInfoView {
    ColumnInfoView {
        name: column.name,
        data_type: canonical_type(column.simple, column.native_type)->0,
    }
}

/// The canonical descriptions of the columns of a result set, in the
/// order of the columns; or the first column whose type has no canonical
/// one.
pub fn postgres_column_info(columns: &Vec<PostgresColumn>) -> (r: Result<
    Vec<ColumnInfo>,
    ConversionError,
>)
    ensures
        match r {
            Ok(info) => {
                &&& info@.len() == columns@.len()
                &&& forall|i: int| !unsupported_column(postgres_columns_view(columns@), i)
                &&& forall|i: int|
                    0 <= i < columns@.len() ==> (#[trigger] info@[i])@ == described(columns@[i]@)
            },
            Err(e) => {
                &&& e matches ConversionError::UnsupportedColumnType { column }
                &&& unsupported_column(postgres_columns_view(columns@), column as int)
                &&& forall|i: int|
                    0 <= i < column ==> !unsupported_column(postgres_columns_view(columns@), i)
            },
        },
{
    let mut result: Vec<ColumnInfo> = Vec::new();
    let mut i: usize = 0;
    while i < columns.len()
        invariant
            i <= columns@.len(),
            result@.len() == i,
            forall|j: int| 0 <= j < i ==> !unsupported_column(postgres_columns_view(columns@), j),
            forall|j: int| 0 <= j < i ==> (#[trigger] result@[j])@ == described(columns@[j]@),
        decreases columns@.len() - i,
    {
        let column = &columns[i];
        match postgres_column_type(column.simple, &column.native_type) {
            Some(data_type) => {
                result.push(ColumnInfo::new(column.name.clone(), data_type));
            },
            None => {
                return Err(ConversionError::UnsupportedColumnType { column: i });
            },
        }
        i = i + 1;
    }
    Ok(result)
}

/// A cell as it is read from a PostgreSQL row. Floating-point cells are
/// held as their bit patterns.
#[derive(Clone, Debug, PartialEq, Eq)]
pub enum PostgresValue {
    Null,
    Int4(i32),
    Int8(i64),
    Float4(u32),
    Float8(u64),
    Text(String),
}

/// A PostgreSQL cell as a mathematical value.
pub enum PostgresValueView {
    Null,
    Int4(i32),
    Int8(i64),
    Float4(u32),
    Float8(u64),
    Text(Seq<char>),
}

impl View for PostgresValue {
    type V = PostgresValueView;

    open spec fn view(&self) -> PostgresValueView {
        match *self {
            PostgresValue::Null => PostgresValueView::Null,
            PostgresValue::Int4(v) => PostgresValueView::Int4(v),
            PostgresValue::Int8(v) => PostgresValueView::Int8(v),
            PostgresValue::Float4(v) => PostgresValueView::Float4(v),
            PostgresValue::Float8(v) => PostgresValueView::Float8(v),
            PostgresValue::Text(v) => PostgresValueView::Text(v@),
        }
    }
}

/// The cells of a PostgreSQL row as mathematical values.
pub open spec fn postgres_row_view(row: Seq<PostgresValue>) -> Seq<PostgresValueView> {
    Seq::new(row.len(), |i: int| row[i]@)
}

/// The canonical form of a PostgreSQL cell in a column: the value of the
/// cell, where the type of the column has a canonical one and the cell
/// holds a value of that type.
pub open spec fn converted_cell(column: PostgresColumnView, cell: PostgresValueView, index: usize) -> Result<
    ValueView,
    ConversionError,
> {
    match canonical_type(column.simple, column.native_type) {
        None => Err(ConversionError::UnsupportedColumnType { column: index }),
        Some(data_type) => match cell {
            PostgresValueView::Null => Err(ConversionError::NullValue { column: index }),
            PostgresValueView::Int4(v) => if data_type == ColumnType::I32 {
                Ok(ValueView::I32(v))
            } else {
                Err(ConversionError::UnsupportedConversion { column: index })
            },
            PostgresValueView::Int8(v) => if data_type == ColumnType::I64 {
                Ok(ValueView::I64(v))
            } else {
                Err(ConversionError::UnsupportedConversion { column: index })
            },
            PostgresValueView::Float4(v) => if data_type == ColumnType::F32 {
                Ok(ValueView::F32(v))
            } else {
                Err(ConversionError::UnsupportedConversion { column: index })
            },
            PostgresValueView::Float8(v) => if data_type == ColumnType::F64 {
                Ok(ValueView::F64(v))
            } else {
                Err(ConversionError::UnsupportedConversion { column: index })
            },
            PostgresValueView::Text(v) => if data_type == ColumnType::String {
                Ok(ValueView::String(v))
            } else {
                Err(ConversionError::UnsupportedConversion { column: index })
            },
        },
    }
}

/// The canonical forms of the first `n` cells of a row, or the failure of
/// the first cell among them that has none.
pub open spec fn converted_cells(
    columns: Seq<PostgresColumnView>,
    row: Seq<PostgresValueView>,
    n: nat,
) -> Result<Seq<ValueView>, ConversionError>
    decreases n,
{
    if n == 0 {
        Ok(Seq::empty())
    } else {
        match converted_cells(columns, row, (n - 1) as nat) {
            Err(e) => Err(e),
            Ok(cells) => match converted_cell(columns[n - 1], row[n - 1], (n - 1) as usize) {
                Ok(cell) => Ok(cells.push(cell)),
                Err(e) => Err(e),
            },
        }
    }
}

/// The canonical form of a row: that of its cells, where the row has as
/// many cells as the result set has columns.
pub open spec fn converted_row(columns: Seq<PostgresColumnView>, row: Seq<PostgresValueView>) -> Result<
    Seq<ValueView>,
    ConversionError,
> {
    if row.len() != columns.len() {
        Err(ConversionError::ColumnCountMismatch)
    } else {
        converted_cells(columns, row, row.len())
    }
}

/// The canonical forms of the first `n` rows, or the failure of the first
/// row among them that has none.
pub open spec fn converted_rows(
    columns: Seq<PostgresColumnView>,
    rows: Seq<Seq<PostgresValueView>>,
    n: nat,
) -> Result<Seq<Seq<ValueView>>, ConversionError>
    decreases n,
{
    if n == 0 {
        Ok(Seq::empty())
    } else {
        match converted_rows(columns, rows, (n - 1) as nat) {
            Err(e) => Err(e),
            Ok(done) => match converted_row(columns, rows[n - 1]) {
                Ok(row) => Ok(done.push(row)),
                Err(e) => Err(e),
            },
        }
    }
}

/// A converted run of cells has one cell for each cell of the run.
pub proof fn lemma_converted_cells_len(
    columns: Seq<PostgresColumnView>,
    row: Seq<PostgresValueView>,
    n: nat,
)
    ensures
        converted_cells(columns, row, n) matches Ok(cells) ==> cells.len() == n,
    decreases n,
{
    if n > 0 {
        lemma_converted_cells_len(columns, row, (n - 1) as nat);
    }
}

/// Converted rows come one for each native row, and each has one cell for
/// each column.
pub proof fn lemma_converted_rows_shape(
    columns: Seq<PostgresColumnView>,
    rows: Seq<Seq<PostgresValueView>>,
    n: nat,
)
    ensures
        converted_rows(columns, rows, n) matches Ok(done) ==> {
            &&& done.len() == n
            &&& forall|i: int| 0 <= i < n ==> (#[trigger] done[i]).len() == columns.len()
            &&& forall|i: int|
                0 <= i < n ==> converted_row(columns, rows[i]) == Ok::<
                    Seq<ValueView>,
                    ConversionError,
                >(#[trigger] done[i])
        },
    decreases n,
{
    if n > 0 {
        lemma_converted_rows_shape(columns, rows, (n - 1) as nat);
        lemma_converted_cells_len(columns, rows[n - 1], rows[n - 1].len());
    }
}

/// Once a cell has failed, the failure is that of every longer run of
/// cells.
pub proof fn lemma_first_failure_stays(
    columns: Seq<PostgresColumnView>,
    row: Seq<PostgresValueView>,
    n: nat,
    m: nat,
)
    requires
        n <= m,
        converted_cells(columns, row, n) is Err,
    ensures
        converted_cells(columns, row, m) == converted_cells(columns, row, n),
    decreases m,
{
    if n < m {
        lemma_first_failure_stays(columns, row, n, (m - 1) as nat);
    }
}

/// Once a row has failed, the failure is that of every longer run of
/// rows.
pub proof fn lemma_first_row_failure_stays(
    columns: Seq<PostgresColumnView>,
    rows: Seq<Seq<PostgresValueView>>,
    n: nat,
    m: nat,
)
    requires
        n <= m,
        converted_rows(columns, rows, n) is Err,
    ensures
        converted_rows(columns, rows, m) == converted_rows(columns, rows, n),
    decreases m,
{
    if n < m {
        lemma_first_row_failure_stays(columns, rows, n, (m - 1) as nat);
    }
}

/// The canonical form of one cell.
fn postgres_to_value(column: &PostgresColumn, cell: &PostgresValue, index: usize) -> (r: Result<
    Value,
    ConversionError,
>)
    ensures
        match r {
            Ok(value) => converted_cell(column@, cell@, index) == Ok::<ValueView, ConversionError>(
                value@,
            ),
            Err(e) => converted_cell(column@, cell@, index) == Err::<ValueView, ConversionError>(e),
        },
{
    let data_type = match postgres_column_type(column.simple, &column.native_type) {
        Some(data_type) => data_type,
        None => {
            return Err(ConversionError::UnsupportedColumnType { column: index });
        },
    };
    match cell {
        PostgresValue::Null => Err(ConversionError::NullValue { column: index }),
        PostgresValue::Int4(v) => match data_type {
            ColumnType::I32 => Ok(Value::I32(*v)),
            _ => Err(ConversionError::UnsupportedConversion { column: index }),
        },
        PostgresValue::Int8(v) => match data_type {
            ColumnType::I64 => Ok(Value::I64(*v)),
            _ => Err(ConversionError::UnsupportedConversion { column: index }),
        },
        PostgresValue::Float4(v) => match data_type {
            ColumnType::F32 => Ok(Value::F32(*v)),
            _ => Err(ConversionError::UnsupportedConversion { column: index }),
        },
        PostgresValue::Float8(v) => match data_type {
            ColumnType::F64 => Ok(Value::F64(*v)),
            _ => Err(ConversionError::UnsupportedConversion { column: index }),
        },
        PostgresValue::Text(v) => match data_type {
            ColumnType::String => Ok(Value::String(v.clone())),
            _ => Err(ConversionError::UnsupportedConversion { column: index }),
        },
    }
}

/// The canonical form of a row: one cell for each column, each of the
/// type of its column.
pub fn postgres_to_row(column_info: &[PostgresColumn], postgres_row: &Vec<PostgresValue>) -> (r:
    Result<Row, ConversionError>)
    ensures
        match r {
            Ok(row) => {
                &&& converted_row(
                    postgres_columns_view(column_info@),
                    postgres_row_view(postgres_row@),
                ) == Ok::<Seq<ValueView>, ConversionError>(row_view(row@))
                &&& row@.len() == column_info@.len()
            },
            Err(e) => converted_row(
                postgres_columns_view(column_info@),
                postgres_row_view(postgres_row@),
            ) == Err::<Seq<ValueView>, ConversionError>(e),
        },
{
    let ghost columns = postgres_columns_view(column_info@);
    let ghost cells = postgres_row_view(postgres_row@);
    if postgres_row.len() != column_info.len() {
        return Err(ConversionError::ColumnCountMismatch);
    }
    let mut result: Row = Vec::new();
    let mut idx: usize = 0;
    assert(row_view(result@) =~= Seq::<ValueView>::empty());
    while idx < postgres_row.len()
        invariant
            idx <= postgres_row@.len(),
            postgres_row@.len() == column_info@.len(),
            columns == postgres_columns_view(column_info@),
            cells == postgres_row_view(postgres_row@),
            result@.len() == idx,
            converted_cells(columns, cells, idx as nat) == Ok::<Seq<ValueView>, ConversionError>(
                row_view(result@),
            ),
        decreases postgres_row@.len() - idx,
    {
        let ghost before = row_view(result@);
        match postgres_to_value(&column_info[idx], &postgres_row[idx], idx) {
            Ok(value) => {
                result.push(value);
                assert(row_view(result@) =~= before.push(value@));
            },
            Err(e) => {
                proof {
                    lemma_first_failure_stays(columns, cells, idx as nat + 1, cells.len());
                }
                return Err(e);
            },
        }
        idx = idx + 1;
    }
    Ok(result)
}

/// The rows of a fetch as mathematical values.
pub open spec fn postgres_batch_view(rows: Seq<Vec<PostgresValue>>) -> Seq<Seq<PostgresValueView>> {
    Seq::new(rows.len(), |i: int| postgres_row_view(rows[i]@))
}

/// What a pull gives for the rows that were fetched for it: nothing once
/// the cursor is exhausted or where no row was fetched; else the rows in
/// their canonical form and in the order in which they came. More rows
/// than a batch may hold are refused, and so is a row without a canonical
/// form.
pub open spec fn batch_outcome(
    exhausted: bool,
    batch_size: u64,
    columns: Seq<PostgresColumnView>,
    fetched: Seq<Seq<PostgresValueView>>,
) -> Result<Option<Seq<Seq<ValueView>>>, ConversionError> {
    pulled(exhausted, batch_size, fetched.len(), converted_rows(columns, fetched, fetched.len()))
}

/// Once a pull has given nothing, every later pull gives nothing,
/// whatever is fetched for it.
pub proof fn lemma_nothing_after_nothing(
    exhausted: bool,
    batch_size: u64,
    columns: Seq<PostgresColumnView>,
    first: Seq<Seq<PostgresValueView>>,
    second: Seq<Seq<PostgresValueView>>,
)
    requires
        batch_outcome(exhausted, batch_size, columns, first) == Ok::<
            Option<Seq<Seq<ValueView>>>,
            ConversionError,
        >(None),
    ensures
        batch_outcome(exhausted_after(exhausted, first.len()), batch_size, columns, second) == Ok::<
            Option<Seq<Seq<ValueView>>>,
            ConversionError,
        >(None),
{
}

/// Every batch that a pull gives holds at least one row and at most as
/// many as a batch may hold, in the order in which the rows were fetched,
/// and each of its rows has one cell for each column.
pub proof fn lemma_batch_shape(
    exhausted: bool,
    batch_size: u64,
    columns: Seq<PostgresColumnView>,
    fetched: Seq<Seq<PostgresValueView>>,
)
    ensures
        batch_outcome(exhausted, batch_size, columns, fetched) matches Ok(Some(rows)) ==> {
            &&& 0 < rows.len() <= batch_size
            &&& rows.len() == fetched.len()
            &&& forall|i: int| 0 <= i < rows.len() ==> (#[trigger] rows[i]).len() == columns.len()
            &&& forall|i: int|
                0 <= i < rows.len() ==> converted_row(columns, fetched[i]) == Ok::<
                    Seq<ValueView>,
                    ConversionError,
                >(#[trigger] rows[i])
        },
{
    lemma_converted_rows_shape(columns, fetched, fetched.len());
}

/// The cursor over the result of a query: it cuts the rows into batches
/// and brings them into their canonical form.
///
/// The rows themselves are fetched by the caller, who asks `fetch_limit`
/// how many to fetch and hands them to `next`.
#[derive(Debug)]
pub struct PostgresSourceBatchIterator {
    batch_size: u64,
    size_hint: Option<u64>,
    columns: Vec<PostgresColumn>,
    column_info: Vec<ColumnInfo>,
    exhausted: bool,
}

impl PostgresSourceBatchIterator {
    #[verifier::type_invariant]
    spec fn described_columns(self) -> bool {
        &&& self.column_info@.len() == self.columns@.len()
        &&& forall|i: int|
            0 <= i < self.columns@.len() ==> (#[trigger] self.column_info@[i])@ == described(
                self.columns@[i]@,
            )
    }

    /// The largest number of rows of a batch.
    pub closed spec fn batch_size(&self) -> u64 {
        self.batch_size
    }

    /// The number of rows that the server announced, where it did.
    pub closed spec fn count(&self) -> Option<u64> {
        self.size_hint
    }

    /// The columns of the result.
    pub closed spec fn columns(&self) -> Seq<PostgresColumnView> {
        postgres_columns_view(self.columns@)
    }

    /// Whether a pull has found the cursor empty.
    pub closed spec fn exhausted(&self) -> bool {
        self.exhausted
    }

    /// The cursor over a result with the given columns. It fails where a
    /// column has a type without a canonical one.
    pub fn new(batch_size: u64, size_hint: Option<u64>, columns: Vec<PostgresColumn>) -> (r: Result<
        PostgresSourceBatchIterator,
        ConversionError,
    >)
        ensures
            match r {
                Ok(cursor) => {
                    &&& cursor.batch_size() == batch_size
                    &&& cursor.count() == size_hint
                    &&& !cursor.exhausted()
                    &&& cursor.columns() == postgres_columns_view(columns@)
                    &&& forall|i: int| !unsupported_column(postgres_columns_view(columns@), i)
                },
                Err(e) => {
                    &&& e matches ConversionError::UnsupportedColumnType { column }
                    &&& unsupported_column(postgres_columns_view(columns@), column as int)
                    &&& forall|i: int|
                        0 <= i < column ==> !unsupported_column(postgres_columns_view(columns@), i)
                },
            },
    {
        match postgres_column_info(&columns) {
            Ok(column_info) => Ok(
                PostgresSourceBatchIterator {
                    batch_size,
                    size_hint,
                    columns,
                    column_info,
                    exhausted: false,
                },
            ),
            Err(e) => Err(e),
        }
    }

    /// The canonical descriptions of the columns, in the order of the
    /// columns.
    pub fn get_column_info(&self) -> (r: Vec<ColumnInfo>)
        ensures
            r@.len() == self.columns().len(),
            forall|i: int|
                0 <= i < r@.len() ==> (#[trigger] r@[i])@ == described(self.columns()[i]),
    {
        proof {
            use_type_invariant(self);
        }
        let mut result: Vec<ColumnInfo> = Vec::new();
        let mut i: usize = 0;
        while i < self.column_info.len()
            invariant
                i <= self.column_info@.len(),
                result@.len() == i,
                forall|j: int| 0 <= j < i ==> (#[trigger] result@[j])@ == self.column_info@[j]@,
            decreases self.column_info@.len() - i,
        {
            let column = &self.column_info[i];
            result.push(ColumnInfo::new(column.name.clone(), column.data_type));
            i = i + 1;
        }
        result
    }

    /// The number of rows of the result, where the server announced it.
    pub fn get_count(&self) -> (r: Option<u64>)
        ensures
            r == self.count(),
    {
        self.size_hint
    }

    /// The number of rows to fetch for the next pull: none once the cursor
    /// is exhausted, else as many as a batch may hold.
    pub fn fetch_limit(&self) -> (r: usize)
        ensures
            r == rows_to_fetch(self.exhausted(), self.batch_size()),
    {
        if self.exhausted {
            0
        } else if self.batch_size <= usize::MAX as u64 {
            self.batch_size as usize
        } else {
            usize::MAX
        }
    }

    /// Pulls the next batch out of the rows that were fetched for it.
    ///
    /// It gives nothing once the cursor is exhausted, and the cursor is
    /// exhausted as soon as no row was fetched. Else it gives the fetched
    /// rows in their canonical form, in the order in which they came.
    pub fn next(&mut self, fetched: &Vec<Vec<PostgresValue>>) -> (r: Result<
        Option<Vec<Row>>,
        ConversionError,
    >)
        ensures
            final(self).batch_size() == old(self).batch_size(),
            final(self).count() == old(self).count(),
            final(self).columns() == old(self).columns(),
            final(self).exhausted() == exhausted_after(old(self).exhausted(), fetched@.len()),
            match r {
                Ok(None) => batch_outcome(
                    old(self).exhausted(),
                    old(self).batch_size(),
                    old(self).columns(),
                    postgres_batch_view(fetched@),
                ) == Ok::<Option<Seq<Seq<ValueView>>>, ConversionError>(None),
                Ok(Some(rows)) => {
                    &&& batch_outcome(
                        old(self).exhausted(),
                        old(self).batch_size(),
                        old(self).columns(),
                        postgres_batch_view(fetched@),
                    ) == Ok::<Option<Seq<Seq<ValueView>>>, ConversionError>(
                        Some(batch_view(rows@)),
                    )
                    &&& 0 < rows@.len() <= old(self).batch_size()
                    &&& rows@.len() == fetched@.len()
                    &&& forall|i: int|
                        0 <= i < rows@.len() ==> (#[trigger] rows@[i])@.len() == old(
                            self,
                        ).columns().len()
                },
                Err(e) => batch_outcome(
                    old(self).exhausted(),
                    old(self).batch_size(),
                    old(self).columns(),
                    postgres_batch_view(fetched@),
                ) == Err::<Option<Seq<Seq<ValueView>>>, ConversionError>(e),
            },
    {
        if self.exhausted {
            return Ok(None);
        }
        if fetched.len() == 0 {
            proof {
                use_type_invariant(&*self);
            }
            self.exhausted = true;
            return Ok(None);
        }
        if fetched.len() as u64 > self.batch_size {
            return Err(ConversionError::TooManyRows);
        }
        let ghost columns = postgres_columns_view(self.columns@);
        let ghost given = postgres_batch_view(fetched@);
        let mut rows: Vec<Row> = Vec::new();
        let mut i: usize = 0;
        assert(batch_view(rows@) =~= Seq::<Seq<ValueView>>::empty());
        while i < fetched.len()
            invariant
                i <= fetched@.len(),
                *self == *old(self),
                !self.exhausted,
                0 < fetched@.len() <= self.batch_size,
                columns == postgres_columns_view(self.columns@),
                given == postgres_batch_view(fetched@),
                rows@.len() == i,
                converted_rows(columns, given, i as nat) == Ok::<
                    Seq<Seq<ValueView>>,
                    ConversionError,
                >(batch_view(rows@)),
                forall|j: int| 0 <= j < i ==> (#[trigger] rows@[j])@.len() == columns.len(),
            decreases fetched@.len() - i,
        {
            let ghost before = batch_view(rows@);
            match postgres_to_row(self.columns.as_slice(), &fetched[i]) {
                Ok(row) => {
                    rows.push(row);
                    assert(batch_view(rows@) =~= before.push(row_view(row@)));
                },
                Err(e) => {
                    proof {
                        assert(given[i as int] == postgres_row_view(fetched@[i as int]@));
                        assert(converted_rows(columns, given, i as nat + 1) == Err::<
                            Seq<Seq<ValueView>>,
                            ConversionError,
                        >(e));
                        lemma_first_row_failure_stays(columns, given, i as nat + 1, given.len());
                    }
                    return Err(e);
                },
            }
            i = i + 1;
        }
        Ok(Some(rows))
    }
}

} // verus!
