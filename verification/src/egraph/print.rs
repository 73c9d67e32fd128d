use vstd::prelude::*;
use crate::span::Span;
use crate::egraph::{EGraph, StateView};
use crate::error::{Error, TypeError};
use crate::ids::TableId;
use crate::names::{entry_value, names_unique, name_map_get_index, name_map_len};
use crate::output::{CommandOutput, entries_view, sorted_by_name, same_entries, sort_by_name};

verus! {

/// Each function's name with the number of rows of its table, in the order
/// the functions were declared.
pub open spec fn function_sizes(v: StateView) -> Seq<(Seq<char>, usize)> {
    Seq::new(v.functions.len(), |i: int| (v.function_names[i].0, v.tables[i].rows.len() as usize))
}

/// What printing sizes gives: for a name, the number of rows of that
/// function's table, or an unbound-function error; without a name, every
/// function's name and size, sorted by name.
pub open spec fn print_size_post(v: StateView, sym: Option<Seq<char>>, r: Result<CommandOutput, Error>) -> bool {
    match sym {
        Some(name) => match entry_value(v.function_names, name) {
            None => r matches Err(Error::TypeError(TypeError::UnboundFunction(n, sp))) && n@ == name && sp == Span::Panic,
            Some(i) => r matches Ok(CommandOutput::PrintFunctionSize(n)) && n == v.tables[i as int].rows.len(),
        },
        None => r matches Ok(CommandOutput::PrintAllFunctionsSize(es))
            && entries_view(es@).len() == v.functions.len()
            && sorted_by_name(entries_view(es@))
            && same_entries(entries_view(es@), function_sizes(v)),
    }
}

impl EGraph {
    /// The size of a function, or, without a name, the sizes of all
    /// functions sorted by name. An unknown name fails with a span that
    /// names no place (a `print-size` command puts its own span in the
    /// error).
    pub fn print_size(&mut self, sym: Option<&str>) -> (r: Result<CommandOutput, Error>)
        requires
            old(self).wf(),
        ensures
            *final(self) == *old(self),
            print_size_post(old(self)@, match sym { Some(name) => Some(name@), None => None }, r),
    {
        match sym {
            Some(name) => {
                match self.find_function(name) {
                    None => Err(Error::TypeError(TypeError::UnboundFunction(String::from_str(name), Span::Panic))),
                    Some(i) => {
                        proof { crate::egraph::lemma_function_entry(self@, name@); }
                        let n = self.state.backend.table_size(TableId(i as u32));
                        Ok(CommandOutput::PrintFunctionSize(n))
                    },
                }
            },
            None => {
                let ghost v = self@;
                let ghost fs = function_sizes(v);
                let n = name_map_len(&self.state.functions);
                let mut lens: Vec<(String, usize)> = Vec::new();
                let mut i: usize = 0;
                while i < n
                    invariant
                        0 <= i <= n,
                        self.wf(),
                        v == self@,
                        fs == function_sizes(v),
                        n == v.function_names.len(),
                        entries_view(lens@) == fs.take(i as int),
                    decreases n - i,
                {
                    let (name, j) = name_map_get_index(&self.state.functions, i);
                    assert(v.function_names[i as int] == (v.functions[i as int].decl.name, i as usize));
                    let size = self.state.backend.table_size(TableId(j as u32));
                    let ghost l0 = entries_view(lens@);
                    assert(j == i);
                    assert(fs[i as int] == (name@, size));
                    lens.push((name, size));
                    assert(entries_view(lens@) =~= l0.push((name@, size)));
                    assert(entries_view(lens@) =~= fs.take(i + 1));
                    i = i + 1;
                }
                proof {
                    assert(fs.take(i as int) =~= fs);
                    assert forall|a: int, b: int| 0 <= a < b < fs.len() implies fs[a].0 != fs[b].0 by {
                        assert(v.function_names[a].0 != v.function_names[b].0);
                    }
                }
                let sorted = sort_by_name(&lens);
                Ok(CommandOutput::PrintAllFunctionsSize(sorted))
            },
        }
    }
}

} // verus!
