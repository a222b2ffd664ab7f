//! Tables known to the planner.
use crate::program::ConnectorOp;
use vstd::prelude::*;

verus! {

/// A table backed by a connector; `connector_op` is its source
/// configuration.
#[derive(Debug, PartialEq, Eq)]
pub struct ConnectorTable {
    pub name: String,
    pub connector_op: ConnectorOp,
}

/// A table of the catalog.
#[derive(Debug, PartialEq, Eq)]
pub enum Table {
    ConnectorTable(ConnectorTable),
    MemoryTable { name: String },
    TableFromQuery { name: String },
}

impl Table {
    pub open spec fn spec_name(&self) -> Seq<char> {
        match self {
            Table::ConnectorTable(t) => t.name@,
            Table::MemoryTable { name } => name@,
            Table::TableFromQuery { name } => name@,
        }
    }

    pub fn name(&self) -> (r: &String)
        ensures
            r@ == self.spec_name(),
    {
        match self {
            Table::ConnectorTable(t) => &t.name,
            Table::MemoryTable { name } => name,
            Table::TableFromQuery { name } => name,
        }
    }
}

/// The first table of `tables` with the given name.
pub open spec fn lookup(tables: Seq<Table>, name: Seq<char>) -> Option<Table>
    decreases tables.len(),
{
    if tables.len() == 0 {
        None
    } else if tables[0].spec_name() == name {
        Some(tables[0])
    } else {
        lookup(tables.drop_first(), name)
    }
}

/// The catalog of tables a query may reference.
#[derive(Debug, PartialEq, Eq)]
pub struct ArroyoSchemaProvider {
    pub tables: Vec<Table>,
}

impl ConnectorOp {
    /// A field-for-field copy.
    pub fn duplicate(&self) -> (r: ConnectorOp)
        ensures
            r == *self,
    {
        ConnectorOp {
            connector: self.connector.clone(),
            config: self.config.clone(),
            description: self.description.clone(),
        }
    }
}

impl ArroyoSchemaProvider {
    pub fn new() -> (r: Self)
        ensures
            r.tables@.len() == 0,
    {
        ArroyoSchemaProvider { tables: Vec::new() }
    }

    /// Adds a table; lookups find the first table of a name.
    pub fn add_table(&mut self, table: Table)
        ensures
            final(self).tables@ == old(self).tables@.push(table),
    {
        self.tables.push(table);
    }

    /// The first table with the given name, if any.
    pub fn get_table(&self, name: &String) -> (r: Option<&Table>)
        ensures
            match r {
                Some(t) => lookup(self.tables@, name@) == Some(*t),
                None => lookup(self.tables@, name@) is None,
            },
    {
        let mut i: usize = 0;
        assert(self.tables@.subrange(0, self.tables@.len() as int) =~= self.tables@);
        while i < self.tables.len()
            invariant
                i <= self.tables.len(),
                lookup(self.tables@, name@) == lookup(self.tables@.subrange(i as int, self.tables@.len() as int), name@),
            decreases self.tables.len() - i,
        {
            let ghost rest = self.tables@.subrange(i as int, self.tables@.len() as int);
            if *self.tables[i].name() == *name {
                assert(rest[0] == self.tables@[i as int]);
                return Some(&self.tables[i]);
            }
            assert(rest.drop_first() =~= self.tables@.subrange(i + 1, self.tables@.len() as int));
            i = i + 1;
        }
        None
    }
}

} // verus!
