//! Which tools there are.

use crate::error::{CoreError, CoreErrorView};
use crate::table::{lookup, stored, Table};
use crate::tools::definition::ToolDefinition;
use vstd::prelude::*;

verus! {

/// A tool, and what stands for it at work.
#[derive(Debug)]
pub struct Registered<T> {
    pub definition: ToolDefinition,
    pub tool: T,
}

/// The tools by their names; `T` is what stands for a tool at work.
#[derive(Debug)]
pub struct ToolRegistry<T> {
    tools: Table<Registered<T>>,
}

impl<T> ToolRegistry<T> {
    /// The tools by their names.
    pub closed spec fn tools(&self) -> Seq<(Seq<char>, Registered<T>)> {
        self.tools@
    }

    /// A registry without tools.
    pub fn new() -> (r: ToolRegistry<T>)
        ensures
            r.tools() == Seq::<(Seq<char>, Registered<T>)>::empty(),
    {
        ToolRegistry { tools: Table::new() }
    }

    /// Adds a tool under the name of its definition, in the place of a tool
    /// that had the name before.
    pub fn register(&mut self, definition: ToolDefinition, tool: T)
        ensures
            final(self).tools() == stored(
                old(self).tools(),
                definition.name@,
                (Registered { definition, tool }),
            ),
    {
        let name = definition.name.clone();
        self.tools.insert(name, Registered { definition, tool });
    }

    /// The tool of a name.
    pub fn get(&self, name: &str) -> (r: Result<&Registered<T>, CoreError>)
        ensures
            match r {
                Ok(t) => lookup(self.tools(), name@) == Some(*t),
                Err(e) => lookup(self.tools(), name@) is None && e@
                    == CoreErrorView::ToolNotFound(name@),
            },
    {
        match self.tools.get(name) {
            Some(t) => Ok(t),
            None => Err(CoreError::ToolNotFound(name.to_owned())),
        }
    }

    /// What the tools are.
    pub fn list(&self) -> (r: Vec<ToolDefinition>)
        ensures
            r@.len() == self.tools().len(),
            forall|i: int|
                0 <= i < r@.len() ==> (#[trigger] r@[i])@ == self.tools()[i].1.definition@,
    {
        let mut out: Vec<ToolDefinition> = Vec::new();
        let mut i: usize = 0;
        while i < self.tools.len()
            invariant
                0 <= i <= self.tools().len(),
                out@.len() == i,
                forall|k: int|
                    0 <= k < i ==> (#[trigger] out@[k])@ == self.tools()[k].1.definition@,
            decreases self.tools().len() - i,
        {
            out.push(self.tools.value(i).definition.copy());
            i += 1;
        }
        out
    }

    /// How many tools there are.
    pub fn count(&self) -> (n: usize)
        ensures
            n == self.tools().len(),
    {
        self.tools.len()
    }
}

} // verus!
