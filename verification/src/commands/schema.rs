//! The schema tree: building it, rendering it and searching it.

use vstd::prelude::*;
use vstd::string::StringExecFns;
use crate::arena::{
    Node, clone_nodes, lemma_links_children, lemma_links_empty, lemma_links_well_formed,
    links_consistent, matching_subtree, nodes_view, parent_view, push_node, render_node,
};
use crate::commands::ApplicationArguments;
use crate::commands::common::SourceConfigCommandWrapper;
use crate::text::{
    case_insensitive_search, contains, less, lex_less, lowercase, occurs_in, regex_search,
    to_lowercase,
};
use crate::tree::{
    NodeView, flags_by_name, in_pre_order, in_subtree, indentation, is_child_list,
    is_matching_subtree, lemma_subtree_matching_is_idempotent,
    item_line, lemma_in_pre_order_push, lemma_in_subtree_of_parent, lemma_root_reaches, rendered,
    well_formed,
};

verus! {

/// The command that shows the schema of a database.
#[derive(Clone, Debug, PartialEq, Eq)]
pub struct SchemaCommand {
    /// Search with a regular expression.
    pub regex: bool,
    /// Show only the items that match this query.
    pub query: Option<String>,
    pub source: SourceConfigCommandWrapper,
}

/// Why a schema could not be shown.
#[derive(Clone, Copy, Debug, PartialEq, Eq, Structural)]
pub enum SchemaError {
    /// The query is no valid regular expression.
    InvalidPattern,
    /// The row with this index names a table that sorts before the table
    /// of the row before it.
    UnsortedRows { row: usize },
}

/// Whether a name matches a query: as a regular expression where
/// `is_regex` is set, else by holding the query in its lowercase form. A
/// query that is no valid regular expression gives nothing.
pub open spec fn item_matches(name: Seq<char>, query: Seq<char>, is_regex: bool) -> Option<bool> {
    if is_regex {
        case_insensitive_search(query, name)
    } else {
        Some(occurs_in(query, lowercase(name)))
    }
}

/// The flags that a query gives to the nodes of a tree.
pub open spec fn query_flags(v: Seq<NodeView>, query: Seq<char>, is_regex: bool) -> Seq<bool> {
    flags_by_name(v, |name: Seq<char>| item_matches(name, query, is_regex) == Some(true))
}

/// Searching the result of a search for a query once more for the same
/// query gives that result again.
pub proof fn lemma_query_search_is_idempotent(
    src: Seq<NodeView>,
    query: Seq<char>,
    is_regex: bool,
    once: Seq<NodeView>,
    twice: Seq<NodeView>,
)
    requires
        well_formed(src),
        is_matching_subtree(src, query_flags(src, query, is_regex), once),
        is_matching_subtree(once, query_flags(once, query, is_regex), twice),
    ensures
        twice == once,
{
    let pred = |name: Seq<char>| item_matches(name, query, is_regex) == Some(true);
    assert(flags_by_name(src, pred) =~= query_flags(src, query, is_regex));
    assert(flags_by_name(once, pred) =~= query_flags(once, query, is_regex));
    lemma_subtree_matching_is_idempotent(src, pred, once, twice);
}

/// One schema, table or column of a database.
#[derive(Clone, Debug, PartialEq, Eq)]
pub struct DBItem {
    pub name: String,
}

impl View for DBItem {
    type V = Seq<char>;

    open spec fn view(&self) -> Seq<char> {
        self.name@
    }
}

impl DBItem {
    /// An item with the given name.
    pub fn new(name: String) -> (r: DBItem)
        ensures
            r@ == name@,
    {
        DBItem { name }
    }

    /// The line that shows this item at an indentation level: four spaces
    /// for each level, then the name.
    pub fn print(&self, indentation_level: usize) -> (line: String)
        ensures
            line@ == item_line(self@, indentation_level as nat),
    {
        let mut line = String::new();
        let mut done: usize = 0;
        while done < indentation_level
            invariant
                done <= indentation_level,
                line@ == indentation(done as nat),
            decreases indentation_level - done,
        {
            proof {
                reveal_strlit("    ");
            }
            line.append("    ");
            done = done + 1;
            assert(line@ =~= indentation(done as nat));
        }
        line.append(self.name.as_str());
        line
    }

    /// Whether the name matches the query: with `is_regex`, whether the
    /// query, read as a regular expression without regard to case, matches
    /// anywhere in the name; else whether the lowercase form of the name
    /// holds the query.
    pub fn matches(&self, query: &str, is_regex: bool) -> (r: Result<bool, SchemaError>)
        ensures
            r == match item_matches(self@, query@, is_regex) {
                Some(found) => Ok::<bool, SchemaError>(found),
                None => Err::<bool, SchemaError>(SchemaError::InvalidPattern),
            },
    {
        if is_regex {
            search_outcome(regex_search(query, self.name.as_str()))
        } else {
            let lowered = to_lowercase(self.name.as_str());
            Ok(lowered_name_holds(lowered.as_str(), query))
        }
    }
}

/// What the search for a regular expression gave, as the outcome of a
/// match: the answer of the search, or the failure where the search gave
/// nothing because the query is no valid regular expression.
pub fn search_outcome(found: Option<bool>) -> (r: Result<bool, SchemaError>)
    ensures
        r == match found {
            Some(answer) => Ok::<bool, SchemaError>(answer),
            None => Err::<bool, SchemaError>(SchemaError::InvalidPattern),
        },
{
    match found {
        Some(answer) => Ok(answer),
        None => Err(SchemaError::InvalidPattern),
    }
}

/// Whether a name that was brought to lowercase holds the query
/// somewhere.
pub fn lowered_name_holds(lowered: &str, query: &str) -> (r: bool)
    ensures
        r == occurs_in(query@, lowered@),
{
    contains(lowered, query)
}

/// Where a new node goes.
#[derive(Clone, Copy, Debug, PartialEq, Eq, Structural)]
pub enum InsertBehavior {
    /// The node becomes the root of an empty tree.
    AsRoot,
    /// The node becomes the last child of the node with this index.
    UnderNode(usize),
}

/// Why a node could not be inserted.
#[derive(Clone, Copy, Debug, PartialEq, Eq, Structural)]
pub enum InsertError {
    /// The tree has a root already.
    RootExists,
    /// No node has the index given as the parent.
    NoSuchParent,
}

/// A schema tree: a root that is never shown, and below it the schemas,
/// tables and columns, each under its parent in the order of insertion.
#[derive(Debug, PartialEq, Eq)]
pub struct DBItems {
    nodes: Vec<Node>,
}

impl View for DBItems {
    type V = Seq<NodeView>;

    closed spec fn view(&self) -> Seq<NodeView> {
        nodes_view(self.nodes@)
    }
}

impl Clone for DBItems {
    /// A tree with the same nodes.
    fn clone(&self) -> (r: Self)
        ensures
            r@ == self@,
    {
        proof {
            use_type_invariant(self);
        }
        DBItems { nodes: clone_nodes(&self.nodes) }
    }
}

impl DBItems {
    #[verifier::type_invariant]
    spec fn links(self) -> bool {
        links_consistent(self.nodes@)
    }

    /// The tree without any node.
    pub fn new() -> (r: DBItems)
        ensures
            r@ == Seq::<NodeView>::empty(),
    {
        let nodes: Vec<Node> = Vec::new();
        proof {
            lemma_links_empty(nodes@);
        }
        assert(nodes_view(nodes@) =~= Seq::<NodeView>::empty());
        DBItems { nodes }
    }

    /// The number of nodes, the root included.
    pub fn len(&self) -> (n: usize)
        ensures
            n == self@.len(),
            well_formed(self@),
    {
        proof {
            use_type_invariant(self);
            lemma_links_well_formed(self.nodes@);
        }
        self.nodes.len()
    }

    /// The item of the node with the given index.
    pub fn get(&self, index: usize) -> (r: Option<&DBItem>)
        ensures
            match r {
                Some(item) => index < self@.len() && item@ == self@[index as int].name,
                None => index >= self@.len(),
            },
    {
        if index < self.nodes.len() {
            Some(&self.nodes[index].item)
        } else {
            None
        }
    }

    /// The index of the parent of the node with the given index; none for
    /// the root and for an index that names no node.
    pub fn parent(&self, index: usize) -> (r: Option<usize>)
        ensures
            parent_view(r) == if index < self@.len() {
                self@[index as int].parent
            } else {
                None
            },
    {
        if index < self.nodes.len() {
            self.nodes[index].parent
        } else {
            None
        }
    }

    /// The indices of the children of the node with the given index, in
    /// the order in which they were inserted.
    pub fn children(&self, index: usize) -> (r: Option<&Vec<usize>>)
        ensures
            match r {
                Some(children) => index < self@.len() && is_child_list(
                    self@,
                    index as int,
                    children@,
                ),
                None => index >= self@.len(),
            },
    {
        if index < self.nodes.len() {
            proof {
                use_type_invariant(self);
                lemma_links_children(self.nodes@, index as int);
            }
            Some(&self.nodes[index].children)
        } else {
            None
        }
    }

    /// Adds a node that holds `item` and returns its index, which is the
    /// number of nodes that the tree had before. The tree is left as it was
    /// where a root is asked for and the tree has one, and where the parent
    /// named does not exist.
    pub fn insert(&mut self, item: DBItem, behavior: InsertBehavior) -> (r: Result<
        usize,
        InsertError,
    >)
        ensures
            well_formed(final(self)@),
            match behavior {
                InsertBehavior::AsRoot => if old(self)@.len() == 0 {
                    &&& r == Ok::<usize, InsertError>(0)
                    &&& final(self)@ == seq![NodeView { name: item@, parent: None }]
                } else {
                    &&& r == Err::<usize, InsertError>(InsertError::RootExists)
                    &&& final(self)@ == old(self)@
                },
                InsertBehavior::UnderNode(p) => if p < old(self)@.len() {
                    &&& r == Ok::<usize, InsertError>(old(self)@.len() as usize)
                    &&& final(self)@ == old(self)@.push(
                        NodeView { name: item@, parent: Some(p as int) },
                    )
                } else {
                    &&& r == Err::<usize, InsertError>(InsertError::NoSuchParent)
                    &&& final(self)@ == old(self)@
                },
            },
    {
        proof {
            use_type_invariant(&*self);
            lemma_links_well_formed(self.nodes@);
        }
        let index = self.nodes.len();
        let parent = match behavior {
            InsertBehavior::AsRoot => {
                if index != 0 {
                    return Err(InsertError::RootExists);
                }
                None
            },
            InsertBehavior::UnderNode(p) => {
                if p >= index {
                    return Err(InsertError::NoSuchParent);
                }
                Some(p)
            },
        };
        let mut nodes: Vec<Node> = Vec::new();
        proof {
            lemma_links_empty(nodes@);
        }
        core::mem::swap(&mut self.nodes, &mut nodes);
        push_node(&mut nodes, item, parent);
        proof {
            lemma_links_well_formed(nodes@);
        }
        self.nodes = nodes;
        assert(self@ =~= old(self)@.push(NodeView { name: item@, parent: parent_view(parent) }));
        if index == 0 {
            assert(self@ =~= seq![NodeView { name: item@, parent: None }]);
        }
        Ok(index)
    }

    /// The lines that show the tree: one for each node but the root, in
    /// pre-order, each name indented by four spaces for each of its
    /// ancestors but the root.
    pub fn print(&self) -> (lines: Vec<String>)
        ensures
            lines.deep_view() == rendered(self@),
    {
        let mut lines: Vec<String> = Vec::new();
        assert(lines.deep_view() =~= Seq::<Seq<char>>::empty());
        if self.nodes.len() > 0 {
            proof {
                use_type_invariant(self);
            }
            render_node(&self.nodes, 0, 0, &mut lines);
        }
        lines
    }

    /// The smallest subtree that holds every node whose flag is set and
    /// all ancestors of such a node; a node without a flag counts as not
    /// set. The nodes of the result stand in pre-order, each with the name
    /// of the node that it was copied from, under the copy of that node's
    /// parent, and among its siblings in the order of this tree.
    pub fn subtree_of_matches(&self, matched: &Vec<bool>) -> (r: DBItems)
        ensures
            well_formed(self@),
            is_matching_subtree(self@, matched@, r@),
    {
        proof {
            use_type_invariant(self);
            lemma_links_well_formed(self.nodes@);
        }
        let nodes = matching_subtree(&self.nodes, matched);
        DBItems { nodes }
    }

    /// The smallest subtree that holds every node whose name matches the
    /// query and all ancestors of such a node. Where the query is to be
    /// read as a regular expression and is none, and the tree has a node,
    /// the search fails.
    pub fn subtree_matching_query(&self, query: &str, is_regex: bool) -> (r: Result<
        DBItems,
        SchemaError,
    >)
        ensures
            well_formed(self@),
            match r {
                Ok(found) => {
                    &&& forall|i: int|
                        0 <= i < self@.len() ==> item_matches(
                            (#[trigger] self@[i]).name,
                            query@,
                            is_regex,
                        ) is Some
                    &&& is_matching_subtree(self@, query_flags(self@, query@, is_regex), found@)
                },
                Err(e) => {
                    &&& e == SchemaError::InvalidPattern
                    &&& exists|i: int|
                        0 <= i < self@.len() && item_matches(
                            (#[trigger] self@[i]).name,
                            query@,
                            is_regex,
                        ) is None
                },
            },
    {
        proof {
            use_type_invariant(self);
            lemma_links_well_formed(self.nodes@);
        }
        let total = self.nodes.len();
        let mut matched: Vec<bool> = Vec::new();
        let mut i: usize = 0;
        while i < total
            invariant
                i <= total,
                total == self.nodes@.len(),
                well_formed(self@),
                matched@.len() == i,
                forall|j: int|
                    0 <= j < i ==> item_matches((#[trigger] self@[j]).name, query@, is_regex)
                        == Some(matched@[j]),
            decreases total - i,
        {
            match self.nodes[i].item.matches(query, is_regex) {
                Ok(found) => {
                    matched.push(found);
                },
                Err(e) => {
                    assert(item_matches(self@[i as int].name, query@, is_regex) is None);
                    return Err(e);
                },
            }
            i = i + 1;
        }
        assert(matched@ =~= query_flags(self@, query@, is_regex));
        Ok(self.subtree_of_matches(&matched))
    }
}

/// One row of the metadata of a database: a column and the table that it
/// belongs to.
#[derive(Clone, Debug, PartialEq, Eq)]
pub struct SchemaRow {
    pub table: String,
    pub column: String,
}

/// The mathematical value of a metadata row.
pub struct SchemaRowView {
    pub table: Seq<char>,
    pub column: Seq<char>,
}

impl View for SchemaRow {
    type V = SchemaRowView;

    open spec fn view(&self) -> SchemaRowView {
        SchemaRowView { table: self.table@, column: self.column@ }
    }
}

/// The metadata rows as mathematical values.
pub open spec fn rows_view(rows: Seq<SchemaRow>) -> Seq<SchemaRowView> {
    Seq::new(rows.len(), |i: int| rows[i]@)
}

/// Row `i` names a table that sorts before the table of the row before.
pub open spec fn out_of_order(rows: Seq<SchemaRowView>, i: int) -> bool {
    0 < i < rows.len() && lex_less(rows[i].table, rows[i - 1].table)
}

/// No row names a table that sorts before the table of the row before.
pub open spec fn rows_sorted(rows: Seq<SchemaRowView>) -> bool {
    forall|i: int| !#[trigger] out_of_order(rows, i)
}

/// Row `i` is the first row of its table.
pub open spec fn starts_table(rows: Seq<SchemaRowView>, i: int) -> bool {
    i == 0 || rows[i].table != rows[i - 1].table
}

/// The index that the node of the last row's table has in the tree of the
/// rows.
pub open spec fn open_table(rows: Seq<SchemaRowView>) -> int
    decreases rows.len(),
{
    if rows.len() == 0 {
        0
    } else if starts_table(rows, rows.len() - 1) {
        schema_tree(rows.drop_last()).len() as int
    } else {
        open_table(rows.drop_last())
    }
}

/// The tree of the rows: a root without a name; below it one node for
/// each run of rows with one table, in the order of the rows; below each
/// table one node for each of its rows, named as the row's column.
pub open spec fn schema_tree(rows: Seq<SchemaRowView>) -> Seq<NodeView>
    decreases rows.len(),
{
    if rows.len() == 0 {
        seq![NodeView { name: Seq::empty(), parent: None }]
    } else {
        let before = schema_tree(rows.drop_last());
        let row = rows.last();
        if starts_table(rows, rows.len() - 1) {
            before.push(NodeView { name: row.table, parent: Some(0) }).push(
                NodeView { name: row.column, parent: Some(before.len() as int) },
            )
        } else {
            before.push(NodeView { name: row.column, parent: Some(open_table(rows.drop_last())) })
        }
    }
}

/// Builds the tree of a database from its metadata rows, which must come
/// sorted by table. The rows are grouped in one pass: a table node is
/// opened whenever a row names another table than the row before. A row
/// whose table sorts before the table of the row before is refused, since
/// the table's node would otherwise appear twice.
pub fn build_schema_tree(rows: &Vec<SchemaRow>) -> (r: Result<DBItems, SchemaError>)
    ensures
        match r {
            Ok(tree) => {
                &&& rows_sorted(rows_view(rows@))
                &&& tree@ == schema_tree(rows_view(rows@))
                &&& well_formed(tree@)
                &&& in_pre_order(tree@)
            },
            Err(e) => {
                &&& e matches SchemaError::UnsortedRows { row }
                &&& out_of_order(rows_view(rows@), row as int)
                &&& forall|j: int| 0 <= j < row ==> !#[trigger] out_of_order(rows_view(rows@), j)
            },
        },
{
    let ghost rv = rows_view(rows@);
    let mut nodes: Vec<Node> = Vec::new();
    proof {
        lemma_links_empty(nodes@);
    }
    push_node(&mut nodes, DBItem { name: String::new() }, None);
    let mut open: usize = 0;
    let mut i: usize = 0;
    proof {
        assert(rv.take(0) =~= Seq::<SchemaRowView>::empty());
        assert(nodes_view(nodes@) =~= schema_tree(rv.take(0)));
    }
    while i < rows.len()
        invariant
            i <= rows.len(),
            rv == rows_view(rows@),
            links_consistent(nodes@),
            nodes_view(nodes@) == schema_tree(rv.take(i as int)),
            open == open_table(rv.take(i as int)),
            open < nodes@.len(),
            in_pre_order(nodes_view(nodes@)),
            nodes@.len() > 1 ==> in_subtree(nodes_view(nodes@), open as int, nodes@.len() - 1),
            forall|j: int| 0 <= j < i ==> !#[trigger] out_of_order(rv, j),
        decreases rows.len() - i,
    {
        let row = &rows[i];
        let new_table = if i == 0 {
            true
        } else {
            let previous = &rows[i - 1];
            if less(row.table.as_str(), previous.table.as_str()) {
                assert(out_of_order(rv, i as int));
                return Err(SchemaError::UnsortedRows { row: i });
            }
            !(row.table == previous.table)
        };
        let ghost before = rv.take(i as int);
        let ghost now = rv.take(i as int + 1);
        proof {
            assert(now.drop_last() =~= before);
            assert(now.last() == rv[i as int]);
            assert(new_table == starts_table(now, i as int)) by {
                if i > 0 {
                    assert(now[i as int - 1] == rv[i as int - 1]);
                }
            }
            lemma_links_well_formed(nodes@);
        }
        if new_table {
            proof {
                lemma_root_reaches(nodes_view(nodes@), nodes@.len() - 1);
                lemma_in_pre_order_push(
                    nodes_view(nodes@),
                    NodeView { name: row.table@, parent: Some(0) },
                );
            }
            open = nodes.len();
            push_node(&mut nodes, DBItem { name: row.table.clone() }, Some(0));
            proof {
                let v = nodes_view(nodes@);
                assert(in_subtree(v, open as int, open as int));
            }
        }
        proof {
            lemma_in_pre_order_push(
                nodes_view(nodes@),
                NodeView { name: row.column@, parent: Some(open as int) },
            );
        }
        push_node(&mut nodes, DBItem { name: row.column.clone() }, Some(open));
        proof {
            let v = nodes_view(nodes@);
            lemma_links_well_formed(nodes@);
            lemma_in_subtree_of_parent(v, v.len() - 1);
            assert(v == schema_tree(now));
        }
        i = i + 1;
    }
    proof {
        assert(rv.take(i as int) =~= rv);
        lemma_links_well_formed(nodes@);
        assert forall|j: int| !#[trigger] out_of_order(rv, j) by {}
    }
    Ok(DBItems { nodes })
}

/// The query that asks a MySQL server for its tables and columns, and the
/// values for its placeholders.
#[derive(Clone, Debug, PartialEq, Eq)]
pub struct MetadataQuery {
    pub sql: String,
    pub params: Vec<String>,
}

/// The part of the metadata query before the condition.
pub open spec fn metadata_query_head() -> Seq<char> {
    "select concat(t.table_schema, '.', t.table_name), c.column_name from information_schema.tables t left join information_schema.columns c on t.table_schema=c.table_schema and t.table_name=c.table_name"@
}

/// The condition that restricts the metadata query to one database.
pub open spec fn metadata_query_condition() -> Seq<char> {
    " where (t.table_schema=?)"@
}

/// The part of the metadata query after the condition.
pub open spec fn metadata_query_tail() -> Seq<char> {
    " order by binary concat(t.table_schema, '.', t.table_name), c.ordinal_position"@
}

/// The metadata query for a MySQL server: for all databases where none is
/// named, else for the one named, whose name is then the query's only
/// parameter. Each row of the answer holds a table, named with its
/// database, and one of its columns. The rows come sorted by the bytes of
/// the table's name, as `build_schema_tree` asks for, and within a table
/// in the order of its columns.
pub fn mysql_schema_query(database: &Option<String>) -> (r: MetadataQuery)
    ensures
        r.sql@ == metadata_query_head() + (if database is Some {
            metadata_query_condition()
        } else {
            Seq::empty()
        }) + metadata_query_tail(),
        r.params@.len() == (if database is Some {
            1nat
        } else {
            0nat
        }),
        database matches Some(name) ==> r.params@[0]@ == name@,
{
    let mut sql = String::from_str(
        "select concat(t.table_schema, '.', t.table_name), c.column_name from information_schema.tables t left join information_schema.columns c on t.table_schema=c.table_schema and t.table_name=c.table_name",
    );
    let mut params: Vec<String> = Vec::new();
    match database {
        Some(name) => {
            sql.append(" where (t.table_schema=?)");
            params.push(name.clone());
        },
        None => {
            assert(sql@ + Seq::<char>::empty() =~= sql@);
        },
    }
    sql.append(" order by binary concat(t.table_schema, '.', t.table_name), c.ordinal_position");
    MetadataQuery { sql, params }
}

/// The query of a schema command as it is searched for: in lowercase.
pub open spec fn normalized_query(query: Option<String>) -> Option<Seq<char>> {
    match query {
        Some(text) => Some(lowercase(text@)),
        None => None,
    }
}

/// Some node of the tree has a name on which the query cannot be tried,
/// because the query is no valid regular expression.
pub open spec fn query_fails(v: Seq<NodeView>, query: Option<Seq<char>>, is_regex: bool) -> bool {
    query matches Some(text) && exists|i: int|
        0 <= i < v.len() && item_matches((#[trigger] v[i]).name, text, is_regex) is None
}

/// What the schema command shows for the metadata rows of a database: the
/// lines of the tree of the rows or, where the command holds a query, of
/// the smallest subtree that holds every node matching the query, which
/// is first brought to lowercase. Rows that are not sorted by table are
/// refused, and after them a query that is no valid regular expression.
pub fn schema(_args: &ApplicationArguments, schema_command: &SchemaCommand, rows: &Vec<SchemaRow>) -> (r:
    Result<Vec<String>, SchemaError>)
    ensures
        match r {
            Ok(lines) => {
                let whole = schema_tree(rows_view(rows@));
                let query = normalized_query(schema_command.query);
                &&& rows_sorted(rows_view(rows@))
                &&& !query_fails(whole, query, schema_command.regex)
                &&& match query {
                    None => lines.deep_view() == rendered(whole),
                    Some(text) => exists|shown: Seq<NodeView>|
                        {
                            &&& #[trigger] is_matching_subtree(
                                whole,
                                query_flags(whole, text, schema_command.regex),
                                shown,
                            )
                            &&& lines.deep_view() == rendered(shown)
                        },
                }
            },
            Err(SchemaError::UnsortedRows { row }) => {
                &&& out_of_order(rows_view(rows@), row as int)
                &&& forall|j: int| 0 <= j < row ==> !#[trigger] out_of_order(rows_view(rows@), j)
            },
            Err(SchemaError::InvalidPattern) => {
                &&& rows_sorted(rows_view(rows@))
                &&& query_fails(
                    schema_tree(rows_view(rows@)),
                    normalized_query(schema_command.query),
                    schema_command.regex,
                )
            },
        },
{
    let tree = match build_schema_tree(rows) {
        Ok(tree) => tree,
        Err(e) => {
            return Err(e);
        },
    };
    match &schema_command.query {
        None => Ok(tree.print()),
        Some(query) => {
            let normalized = to_lowercase(query.as_str());
            match tree.subtree_matching_query(normalized.as_str(), schema_command.regex) {
                Ok(found) => Ok(found.print()),
                Err(e) => Err(e),
            }
        },
    }
}

} // verus!
