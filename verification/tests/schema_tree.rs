use dbexport::commands::common::{SourceConfigCommand, SourceConfigCommandWrapper, SqliteConfigOptions};
use dbexport::commands::schema::{
    build_schema_tree, mysql_schema_query, schema, DBItem, DBItems, InsertBehavior, InsertError,
    SchemaCommand, SchemaError, SchemaRow,
};
use dbexport::commands::{ApplicationArguments, Command};

fn item(name: &str) -> DBItem {
    DBItem::new(name.to_string())
}

fn sample_tree() -> DBItems {
    let mut tree = DBItems::new();
    let root = tree.insert(item(""), InsertBehavior::AsRoot).unwrap();
    let db = tree.insert(item("db1"), InsertBehavior::UnderNode(root)).unwrap();
    let orders = tree.insert(item("orders"), InsertBehavior::UnderNode(db)).unwrap();
    tree.insert(item("id"), InsertBehavior::UnderNode(orders)).unwrap();
    tree.insert(item("amount"), InsertBehavior::UnderNode(orders)).unwrap();
    tree
}

/// root -> {users -> {id, Name}, orders -> {id, amount}}, with the second
/// table opened before the columns of the first are inserted.
fn interleaved_tree() -> DBItems {
    let mut tree = DBItems::new();
    let root = tree.insert(item(""), InsertBehavior::AsRoot).unwrap();
    let users = tree.insert(item("users"), InsertBehavior::UnderNode(root)).unwrap();
    let orders = tree.insert(item("orders"), InsertBehavior::UnderNode(root)).unwrap();
    tree.insert(item("id"), InsertBehavior::UnderNode(users)).unwrap();
    tree.insert(item("id"), InsertBehavior::UnderNode(orders)).unwrap();
    tree.insert(item("Name"), InsertBehavior::UnderNode(users)).unwrap();
    tree.insert(item("amount"), InsertBehavior::UnderNode(orders)).unwrap();
    tree
}

fn rows(pairs: &[(&str, &str)]) -> Vec<SchemaRow> {
    pairs
        .iter()
        .map(|(table, column)| SchemaRow { table: table.to_string(), column: column.to_string() })
        .collect()
}

fn schema_command(query: Option<&str>, regex: bool) -> SchemaCommand {
    SchemaCommand {
        regex,
        query: query.map(|q| q.to_string()),
        source: SourceConfigCommandWrapper(SourceConfigCommand::Sqlite(SqliteConfigOptions {
            filename: "data.sqlite".to_string(),
        })),
    }
}

fn arguments(command: &SchemaCommand) -> ApplicationArguments {
    ApplicationArguments { verbose: false, command: Command::Schema(command.clone()) }
}

#[test]
fn print_shows_each_node_but_the_root() {
    let lines = sample_tree().print();
    assert_eq!(lines, vec!["db1", "    orders", "        id", "        amount"]);
}

#[test]
fn print_of_an_empty_tree_and_of_a_lone_root_is_empty() {
    assert_eq!(DBItems::new().print(), Vec::<String>::new());
    let mut tree = DBItems::new();
    tree.insert(item("ignored"), InsertBehavior::AsRoot).unwrap();
    assert_eq!(tree.print(), Vec::<String>::new());
}

#[test]
fn print_walks_in_pre_order_whatever_the_order_of_insertion() {
    assert_eq!(
        interleaved_tree().print(),
        vec!["users", "    id", "    Name", "orders", "    id", "    amount"]
    );
}

#[test]
fn item_line_indents_by_four_spaces_a_level() {
    assert_eq!(item("t").print(0), "t");
    assert_eq!(item("t").print(1), "    t");
    assert_eq!(item("col").print(3), "            col");
}

#[test]
fn insert_returns_the_index_of_the_new_node() {
    let mut tree = DBItems::new();
    assert_eq!(tree.len(), 0);
    assert_eq!(tree.insert(item("r"), InsertBehavior::AsRoot), Ok(0));
    assert_eq!(tree.insert(item("a"), InsertBehavior::UnderNode(0)), Ok(1));
    assert_eq!(tree.insert(item("b"), InsertBehavior::UnderNode(1)), Ok(2));
    assert_eq!(tree.len(), 3);
    assert_eq!(tree.parent(0), None);
    assert_eq!(tree.parent(2), Some(1));
    assert_eq!(tree.parent(7), None);
    assert_eq!(tree.get(2), Some(&item("b")));
    assert_eq!(tree.get(3), None);
}

#[test]
fn children_come_in_the_order_of_insertion() {
    let tree = interleaved_tree();
    assert_eq!(tree.children(0), Some(&vec![1, 2]));
    assert_eq!(tree.children(1), Some(&vec![3, 5]));
    assert_eq!(tree.children(2), Some(&vec![4, 6]));
    assert_eq!(tree.children(6), Some(&vec![]));
    assert_eq!(tree.children(7), None);
    assert_eq!(DBItems::new().children(0), None);
}

#[test]
fn a_clone_is_the_same_tree() {
    let tree = interleaved_tree();
    let copy = tree.clone();
    assert_eq!(copy, tree);
    assert_eq!(copy.print(), tree.print());
    let mut grown = tree.clone();
    grown.insert(item("more"), InsertBehavior::UnderNode(0)).unwrap();
    assert_eq!(tree.len(), 7);
    assert_eq!(grown.len(), 8);
    assert_eq!(DBItems::new().clone(), DBItems::new());
}

#[test]
fn insert_refuses_a_second_root_and_a_missing_parent() {
    let mut tree = sample_tree();
    assert_eq!(tree.insert(item("x"), InsertBehavior::AsRoot), Err(InsertError::RootExists));
    assert_eq!(tree.insert(item("x"), InsertBehavior::UnderNode(99)), Err(InsertError::NoSuchParent));
    assert_eq!(tree.len(), 5);
    let mut empty = DBItems::new();
    assert_eq!(empty.insert(item("x"), InsertBehavior::UnderNode(0)), Err(InsertError::NoSuchParent));
    assert_eq!(empty.len(), 0);
}

#[test]
fn matches_by_substring_lowers_the_name_only() {
    assert_eq!(item("Orders").matches("ord", false), Ok(true));
    assert_eq!(item("ORDERS").matches("ders", false), Ok(true));
    assert_eq!(item("orders").matches("ORD", false), Ok(false));
    assert_eq!(item("orders").matches("", false), Ok(true));
    assert_eq!(item("orders").matches("orderss", false), Ok(false));
    assert_eq!(item("a[").matches("[", false), Ok(true));
}

#[test]
fn matches_by_regular_expression_ignores_case() {
    assert_eq!(item("Orders").matches("^ord", true), Ok(true));
    assert_eq!(item("Orders").matches("^ORD.*s$", true), Ok(true));
    assert_eq!(item("Orders").matches("^rd", true), Ok(false));
    assert_eq!(item("orders").matches("o.d", true), Ok(true));
    assert_eq!(item("o.d").matches("ord", true), Ok(false));
}

#[test]
fn matches_reports_an_invalid_regular_expression() {
    assert_eq!(item("orders").matches("(", true), Err(SchemaError::InvalidPattern));
    assert_eq!(item("orders").matches("[a", true), Err(SchemaError::InvalidPattern));
}

#[test]
fn subtree_of_matches_keeps_the_matches_and_their_ancestors() {
    let tree = sample_tree();
    // Only `amount` is flagged.
    let found = tree.subtree_of_matches(&vec![false, false, false, false, true]);
    assert_eq!(found.print(), vec!["db1", "    orders", "        amount"]);
    assert_eq!(found.len(), 4);
    assert_eq!(found.parent(3), Some(2));
    // Only the table is flagged: its columns are left out.
    let found = tree.subtree_of_matches(&vec![false, false, true, false, false]);
    assert_eq!(found.print(), vec!["db1", "    orders"]);
}

#[test]
fn subtree_of_matches_without_a_match_is_empty() {
    let tree = sample_tree();
    let found = tree.subtree_of_matches(&vec![false; 5]);
    assert_eq!(found.len(), 0);
    assert_eq!(found, DBItems::new());
    // Missing flags count as not set, and flags beyond the tree are ignored.
    assert_eq!(tree.subtree_of_matches(&vec![]).len(), 0);
    assert_eq!(tree.subtree_of_matches(&vec![false, false, false, false, false, true]).len(), 0);
}

#[test]
fn subtree_of_matches_with_every_flag_set_gives_the_same_tree() {
    let tree = sample_tree();
    assert_eq!(tree.subtree_of_matches(&vec![true; 5]), tree);
    // A tree that does not stand in pre-order comes back in pre-order,
    // with the same shape and names.
    let tree = interleaved_tree();
    let found = tree.subtree_of_matches(&vec![true; 7]);
    assert_eq!(found.len(), 7);
    assert_eq!(found.print(), tree.print());
    assert_eq!(found.get(1), Some(&item("users")));
    assert_eq!(found.get(2), Some(&item("id")));
    assert_eq!(found.get(3), Some(&item("Name")));
    assert_eq!(found.get(4), Some(&item("orders")));
    assert_eq!(found.parent(3), Some(1));
    assert_eq!(found.parent(4), Some(0));
    assert_eq!(found.parent(6), Some(4));
}

#[test]
fn subtree_of_matches_keeps_the_order_of_siblings() {
    let tree = interleaved_tree();
    // `Name` under users and `id` under orders.
    let found = tree.subtree_of_matches(&vec![false, false, false, false, true, true, false]);
    assert_eq!(found.print(), vec!["users", "    Name", "orders", "    id"]);
}

#[test]
fn subtree_matching_query_is_idempotent() {
    for (query, is_regex) in [("id", false), ("^a", true), ("users", false), ("zzz", false), ("", false)] {
        let tree = interleaved_tree();
        let once = tree.subtree_matching_query(query, is_regex).unwrap();
        let twice = once.subtree_matching_query(query, is_regex).unwrap();
        assert_eq!(once, twice);
    }
}

#[test]
fn subtree_matching_query_finds_by_name() {
    let tree = interleaved_tree();
    let found = tree.subtree_matching_query("name", false).unwrap();
    assert_eq!(found.print(), vec!["users", "    Name"]);
    let found = tree.subtree_matching_query("^(amount|users)$", true).unwrap();
    assert_eq!(found.print(), vec!["users", "orders", "    amount"]);
    // The root has the empty name, which holds the empty query.
    let found = tree.subtree_matching_query("", false).unwrap();
    assert_eq!(found.print(), tree.print());
}

#[test]
fn subtree_matching_query_reports_an_invalid_regular_expression() {
    assert_eq!(sample_tree().subtree_matching_query("(", true), Err(SchemaError::InvalidPattern));
    // Nothing is searched in a tree without nodes, so nothing fails.
    assert_eq!(DBItems::new().subtree_matching_query("(", true), Ok(DBItems::new()));
    // Without the flag the query is plain text.
    assert_eq!(sample_tree().subtree_matching_query("(", false).unwrap().len(), 0);
}

#[test]
fn build_schema_tree_groups_the_rows_by_table() {
    let tree = build_schema_tree(&rows(&[
        ("orders", "id"),
        ("orders", "amount"),
        ("users", "id"),
        ("users", "name"),
    ]))
    .unwrap();
    assert_eq!(tree.len(), 7);
    assert_eq!(tree.get(0), Some(&item("")));
    assert_eq!(
        tree.print(),
        vec!["orders", "    id", "    amount", "users", "    id", "    name"]
    );
    assert_eq!(tree.parent(1), Some(0));
    assert_eq!(tree.parent(3), Some(1));
    assert_eq!(tree.parent(4), Some(0));
    assert_eq!(tree.parent(6), Some(4));
}

#[test]
fn build_schema_tree_of_no_rows_is_a_lone_root() {
    let tree = build_schema_tree(&rows(&[])).unwrap();
    assert_eq!(tree.len(), 1);
    assert_eq!(tree.print(), Vec::<String>::new());
}

#[test]
fn build_schema_tree_refuses_rows_that_are_not_sorted_by_table() {
    let unsorted = rows(&[("orders", "id"), ("users", "id"), ("orders", "amount")]);
    assert_eq!(build_schema_tree(&unsorted), Err(SchemaError::UnsortedRows { row: 2 }));
    let unsorted = rows(&[("b", "x"), ("a", "x"), ("c", "x"), ("b", "y")]);
    assert_eq!(build_schema_tree(&unsorted), Err(SchemaError::UnsortedRows { row: 1 }));
    // Upper case sorts before lower case, and a prefix before the longer name.
    assert!(build_schema_tree(&rows(&[("Orders", "id"), ("orders", "id")])).is_ok());
    assert_eq!(
        build_schema_tree(&rows(&[("orders", "id"), ("Orders", "id")])),
        Err(SchemaError::UnsortedRows { row: 1 })
    );
    assert!(build_schema_tree(&rows(&[("order", "id"), ("orders", "id")])).is_ok());
    assert_eq!(
        build_schema_tree(&rows(&[("orders", "id"), ("order", "id")])),
        Err(SchemaError::UnsortedRows { row: 1 })
    );
}

#[test]
fn schema_shows_the_whole_tree_without_a_query() {
    let command = schema_command(None, false);
    let lines = schema(&arguments(&command), &command, &rows(&[("orders", "id"), ("users", "id")]));
    assert_eq!(lines, Ok(vec!["orders".to_string(), "    id".to_string(), "users".to_string(), "    id".to_string()]));
}

#[test]
fn schema_lowers_the_query_before_it_searches() {
    let data = rows(&[("orders", "id"), ("orders", "Amount"), ("users", "id")]);
    let command = schema_command(Some("AMOUNT"), false);
    assert_eq!(
        schema(&arguments(&command), &command, &data),
        Ok(vec!["orders".to_string(), "    Amount".to_string()])
    );
    let command = schema_command(Some("^USERS$"), true);
    assert_eq!(schema(&arguments(&command), &command, &data), Ok(vec!["users".to_string()]));
}

#[test]
fn schema_reports_unsorted_rows_and_invalid_patterns() {
    let command = schema_command(Some("("), true);
    let sorted = rows(&[("orders", "id")]);
    let unsorted = rows(&[("users", "id"), ("orders", "id")]);
    assert_eq!(schema(&arguments(&command), &command, &sorted), Err(SchemaError::InvalidPattern));
    assert_eq!(
        schema(&arguments(&command), &command, &unsorted),
        Err(SchemaError::UnsortedRows { row: 1 })
    );
}

#[test]
fn mysql_schema_query_names_the_database_as_its_parameter() {
    let all = mysql_schema_query(&None);
    assert_eq!(
        all.sql,
        "select concat(t.table_schema, '.', t.table_name), c.column_name \
         from information_schema.tables t left join information_schema.columns c \
         on t.table_schema=c.table_schema and t.table_name=c.table_name \
         order by binary concat(t.table_schema, '.', t.table_name), c.ordinal_position"
    );
    assert!(all.params.is_empty());
    let one = mysql_schema_query(&Some("shop".to_string()));
    assert_eq!(
        one.sql,
        "select concat(t.table_schema, '.', t.table_name), c.column_name \
         from information_schema.tables t left join information_schema.columns c \
         on t.table_schema=c.table_schema and t.table_name=c.table_name \
         where (t.table_schema=?) \
         order by binary concat(t.table_schema, '.', t.table_name), c.ordinal_position"
    );
    assert_eq!(one.params, vec!["shop".to_string()]);
}
