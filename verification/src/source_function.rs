//! A function found in the source, before it is scored.
use vstd::prelude::*;

verus! {

/// A discovered function: where it stands and how complex its body is.
#[derive(Debug, Clone)]
pub struct SourceFunction {
    pub package_name: String,
    pub name: String,
    /// The normalised path of its file, as coverage records key it.
    pub path_key: String,
    /// Its file relative to the package's manifest directory.
    pub relative_file: String,
    /// The line of the function's name.
    pub line: usize,
    /// The last line of the function.
    pub end_line: usize,
    pub complexity: u32,
}

/// A discovered function as plain values.
pub struct FunctionView {
    pub package_name: Seq<char>,
    pub name: Seq<char>,
    pub path_key: Seq<char>,
    pub relative_file: Seq<char>,
    pub line: usize,
    pub end_line: usize,
    pub complexity: nat,
}

impl View for SourceFunction {
    type V = FunctionView;

    open spec fn view(&self) -> FunctionView {
        FunctionView {
            package_name: self.package_name@,
            name: self.name@,
            path_key: self.path_key@,
            relative_file: self.relative_file@,
            line: self.line,
            end_line: self.end_line,
            complexity: self.complexity as nat,
        }
    }
}

/// The views of a sequence of discovered functions.
pub open spec fn functions_view(s: Seq<SourceFunction>) -> Seq<FunctionView> {
    s.map_values(|f: SourceFunction| f@)
}

/// Whether every function's complexity fits in a `u32`.
pub open spec fn complexities_fit(s: Seq<FunctionView>) -> bool {
    forall|i: int| 0 <= i < s.len() ==> #[trigger] s[i].complexity <= u32::MAX
}

/// What a discovery step that checks for overflow hands back: the expected
/// functions where all their complexities fit, `None` where one does not.
pub open spec fn found_as(found: Option<Vec<SourceFunction>>, expected: Seq<FunctionView>) -> bool {
    match found {
        Some(v) => functions_view(v@) == expected && complexities_fit(expected),
        None => !complexities_fit(expected),
    }
}

/// Two runs of discoveries fit together exactly when each fits.
pub proof fn lemma_fit_concat(a: Seq<FunctionView>, b: Seq<FunctionView>)
    ensures
        complexities_fit(a + b) <==> complexities_fit(a) && complexities_fit(b),
{
    if complexities_fit(a + b) {
        assert forall|i: int| 0 <= i < a.len() implies #[trigger] a[i].complexity <= u32::MAX by {
            assert((a + b)[i] == a[i]);
        }
        assert forall|i: int| 0 <= i < b.len() implies #[trigger] b[i].complexity <= u32::MAX by {
            assert((a + b)[a.len() + i] == b[i]);
        }
    }
}

/// Appends the functions of `part` to those of `all`, as views.
pub fn append_found(all: &mut Vec<SourceFunction>, part: Vec<SourceFunction>)
    ensures
        functions_view(final(all)@) == functions_view(old(all)@) + functions_view(part@),
{
    let mut part = part;
    let ghost before = all@;
    let ghost added = part@;
    all.append(&mut part);
    assert(functions_view(all@) =~= functions_view(before) + functions_view(added));
}

/// Whether every function begins on a line no later than its last.
pub open spec fn lines_ordered(s: Seq<FunctionView>) -> bool {
    forall|i: int| 0 <= i < s.len() ==> #[trigger] s[i].line <= s[i].end_line
}

/// Two runs of functions whose lines are in order stay in order together.
pub proof fn lemma_lines_concat(a: Seq<FunctionView>, b: Seq<FunctionView>)
    requires
        lines_ordered(a),
        lines_ordered(b),
    ensures
        lines_ordered(a + b),
{
    assert forall|i: int| 0 <= i < (a + b).len() implies #[trigger] (a + b)[i].line <= (a
        + b)[i].end_line by {
        if i < a.len() {
            assert((a + b)[i] == a[i]);
        } else {
            assert((a + b)[i] == b[i - a.len()]);
        }
    }
}

} // verus!
