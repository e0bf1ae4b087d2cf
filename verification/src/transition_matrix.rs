//! The transition matrix of a chain, held sparsely as triplets of row, column
//! and probability.

use crate::markov_chain::{chain_wf, ChainView, MarkovChain, NodeView};
use crate::value::Value;
use vstd::prelude::*;
use vstd::string::*;

verus! {

/// One entry of a matrix with its probability as a real number, `None` where it
/// is unknown.
pub type Entry = (usize, usize, Option<real>);

/// The transition matrix of a chain. A pair of row and column that has no entry
/// stands for the probability zero.
#[derive(Debug)]
pub struct TransitionMatrix {
    pub(crate) dim: usize,
    pub(crate) matrix: Vec<(usize, usize, Value)>,
}

/// A matrix with its probabilities as real numbers.
pub struct MatrixView {
    pub dim: nat,
    pub entries: Seq<Entry>,
}

/// The views of a vector of entries, in order.
pub open spec fn entry_views(entries: Seq<(usize, usize, Value)>) -> Seq<Entry> {
    Seq::new(entries.len(), |k: int| (entries[k].0, entries[k].1, entries[k].2@))
}

impl View for TransitionMatrix {
    type V = MatrixView;

    open(crate) spec fn view(&self) -> MatrixView {
        MatrixView { dim: self.dim as nat, entries: entry_views(self.matrix@) }
    }
}

/// What holds of every matrix: each entry lies within the dimension.
pub open spec fn matrix_wf(matrix: MatrixView) -> bool {
    forall|k: int|
        0 <= k < matrix.entries.len() ==> (#[trigger] matrix.entries[k]).0 < matrix.dim
            && matrix.entries[k].1 < matrix.dim
}

/// The entries that the transitions of one state give, in their order.
pub open spec fn row_entries(node: NodeView) -> Seq<Entry> {
    Seq::new(
        node.transitions.len(),
        |j: int|
            (node.id as usize, node.transitions[j].id_to as usize, node.transitions[j].probability),
    )
}

/// The entries that the first `upto` states of a chain give, state after state.
pub open spec fn flattened(graph: Seq<NodeView>, upto: int) -> Seq<Entry>
    decreases upto,
{
    if upto <= 0 {
        Seq::empty()
    } else {
        flattened(graph, upto - 1) + row_entries(graph[upto - 1])
    }
}

/// The matrix of a chain: as many rows and columns as the chain has states, and
/// one entry for each transition.
pub open spec fn matrix_of(chain: ChainView) -> MatrixView {
    MatrixView { dim: chain.graph.len(), entries: flattened(chain.graph, chain.graph.len() as int) }
}

/// The probability that a matrix holds for a row and a column: that of the first
/// entry at or after position `from` that has them, and zero where there is none.
pub open spec fn lookup(entries: Seq<Entry>, row: u64, col: u64, from: int) -> Option<real>
    decreases entries.len() - from,
{
    if from < 0 || from >= entries.len() {
        Some(0real)
    } else if entries[from].0 == row && entries[from].1 == col {
        entries[from].2
    } else {
        lookup(entries, row, col, from + 1)
    }
}

/// Whether an entry lies in the given column: a transition into that state.
pub open spec fn arrives_at(col: u64) -> spec_fn(Entry) -> bool {
    |e: Entry| e.1 == col
}

/// Whether an entry lies in the given row: a transition out of that state.
pub open spec fn leaves_from(row: u64) -> spec_fn(Entry) -> bool {
    |e: Entry| e.0 == row
}

/// The value of a cell of the dense grid, from the first `upto` entries: that of
/// the last entry for the cell, and zero where there is none.
pub open spec fn dense_cell(entries: Seq<Entry>, row: int, col: int, upto: int) -> Option<real>
    decreases upto,
{
    if upto <= 0 {
        Some(0real)
    } else if entries[upto - 1].0 == row && entries[upto - 1].1 == col {
        entries[upto - 1].2
    } else {
        dense_cell(entries, row, col, upto - 1)
    }
}

/// The first `upto` fields of a line of text, each followed by the delimiter.
pub open spec fn line_text(cells: Seq<String>, delimiter: Seq<char>, upto: int) -> Seq<char>
    decreases upto,
{
    if upto <= 0 {
        Seq::empty()
    } else {
        line_text(cells, delimiter, upto - 1) + cells[upto - 1]@ + delimiter
    }
}

/// The text of the first `upto` rows of a grid: one line for each row, each ended
/// by a line feed.
pub open spec fn grid_text(rows: Seq<Vec<String>>, delimiter: Seq<char>, upto: int) -> Seq<char>
    decreases upto,
{
    if upto <= 0 {
        Seq::empty()
    } else {
        grid_text(rows, delimiter, upto - 1) + line_text(
            rows[upto - 1]@,
            delimiter,
            rows[upto - 1]@.len() as int,
        ) + seq!['\n']
    }
}

impl TransitionMatrix {
    /// What holds of every matrix that the program holds.
    #[verifier::type_invariant]
    pub open(crate) spec fn wf(&self) -> bool {
        matrix_wf(self@)
    }

    /// The number of rows, and of columns.
    pub fn dim(&self) -> (r: usize)
        ensures
            r == self@.dim,
    {
        self.dim
    }

    /// A copy of the entries, in their order.
    pub fn matrix(&self) -> (r: Vec<(usize, usize, Value)>)
        ensures
            entry_views(r@) == self@.entries,
            matrix_wf(self@),
    {
        proof {
            use_type_invariant(self);
        }
        let mut out: Vec<(usize, usize, Value)> = Vec::new();
        let mut k: usize = 0;
        while k < self.matrix.len()
            invariant
                k <= self.matrix.len(),
                out@.len() == k,
                forall|j: int|
                    0 <= j < k ==> (#[trigger] out@[j]).0 == self.matrix@[j].0 && out@[j].1
                        == self.matrix@[j].1 && out@[j].2@ == self.matrix@[j].2@,
            decreases self.matrix.len() - k,
        {
            let entry = &self.matrix[k];
            out.push((entry.0, entry.1, entry.2.duplicate()));
            k += 1;
        }
        assert(entry_views(out@) =~= self@.entries);
        out
    }

    /// The matrix of the given dimension with the given entries, unless one of
    /// them lies outside the dimension.
    pub fn from_entries(dim: usize, entries: Vec<(usize, usize, Value)>) -> (r: Option<
        TransitionMatrix,
    >)
        ensures
            r.is_some() <==> matrix_wf(
                MatrixView { dim: dim as nat, entries: entry_views(entries@) },
            ),
            r.is_some() ==> r.unwrap()@ == (MatrixView {
                dim: dim as nat,
                entries: entry_views(entries@),
            }),
    {
        let ghost view = MatrixView { dim: dim as nat, entries: entry_views(entries@) };
        let mut k: usize = 0;
        while k < entries.len()
            invariant
                k <= entries.len(),
                view == (MatrixView { dim: dim as nat, entries: entry_views(entries@) }),
                forall|j: int|
                    0 <= j < k ==> (#[trigger] view.entries[j]).0 < dim && view.entries[j].1 < dim,
            decreases entries.len() - k,
        {
            let entry = &entries[k];
            assert(view.entries[k as int] == (entry.0, entry.1, entry.2@));
            if entry.0 >= dim || entry.1 >= dim {
                return None;
            }
            k += 1;
        }
        Some(TransitionMatrix { dim, matrix: entries })
    }

    /// The matrix of a chain.
    pub fn new_from_markov_chain(mkv_chain: &MarkovChain) -> (r: TransitionMatrix)
        ensures
            r@ == matrix_of(mkv_chain@),
            r@.dim == mkv_chain@.graph.len(),
            matrix_wf(r@),
    {
        proof {
            use_type_invariant(mkv_chain);
        }
        let ghost graph = mkv_chain@.graph;
        let dim = mkv_chain.graph.len();
        let mut matrix: Vec<(usize, usize, Value)> = Vec::new();
        let mut x: usize = 0;
        while x < dim
            invariant
                x <= dim,
                dim == mkv_chain.graph@.len(),
                graph == mkv_chain@.graph,
                chain_wf(mkv_chain@),
                entry_views(matrix@) =~= flattened(graph, x as int),
                forall|k: int|
                    0 <= k < matrix@.len() ==> (#[trigger] matrix@[k]).0 < dim && matrix@[k].1
                        < dim,
            decreases dim - x,
        {
            let node = &mkv_chain.graph[x];
            assert(graph[x as int] == node@);
            let ghost before = entry_views(matrix@);
            let mut j: usize = 0;
            while j < node.transitions.len()
                invariant
                    j <= node.transitions.len(),
                    x < dim,
                    dim == mkv_chain.graph@.len(),
                    graph == mkv_chain@.graph,
                    graph[x as int] == node@,
                    chain_wf(mkv_chain@),
                    before == flattened(graph, x as int),
                    entry_views(matrix@) =~= before + row_entries(node@).take(j as int),
                    forall|k: int|
                        0 <= k < matrix@.len() ==> (#[trigger] matrix@[k]).0 < dim && matrix@[k].1
                            < dim,
                decreases node.transitions.len() - j,
            {
                let t = &node.transitions[j];
                assert(node@.transitions[j as int] == t@);
                assert(graph[x as int].transitions[j as int].id_to < dim);
                let ghost earlier = entry_views(matrix@);
                matrix.push((node.id as usize, t.id_to as usize, t.probability.duplicate()));
                assert(entry_views(matrix@) =~= earlier.push(row_entries(node@)[j as int]));
                assert(row_entries(node@).take(j + 1) =~= row_entries(node@).take(j as int).push(
                    row_entries(node@)[j as int],
                ));
                j += 1;
            }
            assert(row_entries(node@).take(j as int) =~= row_entries(node@));
            x += 1;
        }
        TransitionMatrix { dim, matrix }
    }

    /// The probability that the matrix holds for a row and a column: that of its
    /// first entry for them, and zero where it has none.
    pub fn index(&self, i: (u64, u64)) -> (r: Value)
        ensures
            r@ == lookup(self@.entries, i.0, i.1, 0),
    {
        let mut k: usize = 0;
        while k < self.matrix.len()
            invariant
                k <= self.matrix.len(),
                lookup(self@.entries, i.0, i.1, 0) == lookup(self@.entries, i.0, i.1, k as int),
            decreases self.matrix.len() - k,
        {
            let entry = &self.matrix[k];
            assert(self@.entries[k as int] == (entry.0, entry.1, entry.2@));
            if entry.0 as u64 == i.0 && entry.1 as u64 == i.1 {
                return entry.2.duplicate();
            }
            k += 1;
        }
        Value::from_u64(0)
    }

    /// The entries whose predicate holds, in their order.
    fn select(&self, by_column: bool, i: u64) -> (r: Vec<(usize, usize, Value)>)
        ensures
            entry_views(r@) == self@.entries.filter(
                if by_column {
                    arrives_at(i)
                } else {
                    leaves_from(i)
                },
            ),
    {
        let ghost pred = if by_column {
            arrives_at(i)
        } else {
            leaves_from(i)
        };
        let ghost all = self@.entries;
        let mut out: Vec<(usize, usize, Value)> = Vec::new();
        let mut k: usize = 0;
        assert(all.take(0) =~= Seq::<Entry>::empty());
        while k < self.matrix.len()
            invariant
                k <= self.matrix.len(),
                all == self@.entries,
                pred == if by_column {
                    arrives_at(i)
                } else {
                    leaves_from(i)
                },
                entry_views(out@) =~= all.take(k as int).filter(pred),
            decreases self.matrix.len() - k,
        {
            let entry = &self.matrix[k];
            let ghost earlier = entry_views(out@);
            proof {
                assert(all[k as int] == (entry.0, entry.1, entry.2@));
                assert(all.take(k + 1).drop_last() =~= all.take(k as int));
                assert(all.take(k + 1).last() == all[k as int]);
                reveal(Seq::filter);
            }
            let key: u64 = if by_column {
                entry.1 as u64
            } else {
                entry.0 as u64
            };
            if key == i {
                out.push((entry.0, entry.1, entry.2.duplicate()));
                assert(entry_views(out@) =~= earlier.push(all[k as int]));
            }
            k += 1;
        }
        assert(all.take(k as int) =~= all);
        out
    }

    /// The transitions into the state `i`: the entries of column `i`, in their order.
    pub fn to(&self, i: u64) -> (r: Vec<(usize, usize, Value)>)
        ensures
            entry_views(r@) == self@.entries.filter(arrives_at(i)),
    {
        self.select(true, i)
    }

    /// The transitions out of the state `i`: the entries of row `i`, in their order.
    pub fn _from(&self, i: u64) -> (r: Vec<(usize, usize, Value)>)
        ensures
            entry_views(r@) == self@.entries.filter(leaves_from(i)),
    {
        self.select(false, i)
    }

    /// Row `i` of the dense grid: a value for every column, zero where the matrix
    /// has no entry, and that of the last entry where it has several.
    pub fn dense_row(&self, i: usize) -> (r: Vec<Value>)
        ensures
            r@.len() == self@.dim,
            forall|j: int|
                0 <= j < self@.dim ==> (#[trigger] r@[j])@ == dense_cell(
                    self@.entries,
                    i as int,
                    j,
                    self@.entries.len() as int,
                ),
    {
        proof {
            use_type_invariant(self);
        }
        let mut line: Vec<Value> = Vec::new();
        let mut c: usize = 0;
        while c < self.dim
            invariant
                c <= self.dim,
                line@.len() == c,
                forall|j: int| 0 <= j < c ==> (#[trigger] line@[j])@ == Some(0real),
            decreases self.dim - c,
        {
            line.push(Value::from_u64(0));
            c += 1;
        }
        let mut k: usize = 0;
        while k < self.matrix.len()
            invariant
                k <= self.matrix.len(),
                matrix_wf(self@),
                line@.len() == self.dim,
                forall|j: int|
                    0 <= j < self.dim ==> (#[trigger] line@[j])@ == dense_cell(
                        self@.entries,
                        i as int,
                        j,
                        k as int,
                    ),
            decreases self.matrix.len() - k,
        {
            let entry = &self.matrix[k];
            assert(self@.entries[k as int] == (entry.0, entry.1, entry.2@));
            if entry.0 == i {
                line.set(entry.1, entry.2.duplicate());
            }
            k += 1;
        }
        line
    }

    /// The dense grid: every row, in order.
    pub fn dense_rows(&self) -> (r: Vec<Vec<Value>>)
        ensures
            r@.len() == self@.dim,
            forall|i: int|
                0 <= i < self@.dim ==> (#[trigger] r@[i])@.len() == self@.dim && forall|j: int|
                    0 <= j < self@.dim ==> (#[trigger] r@[i]@[j])@ == dense_cell(
                        self@.entries,
                        i,
                        j,
                        self@.entries.len() as int,
                    ),
    {
        let mut rows: Vec<Vec<Value>> = Vec::new();
        let mut i: usize = 0;
        while i < self.dim
            invariant
                i <= self.dim,
                rows@.len() == i,
                forall|a: int|
                    0 <= a < i ==> (#[trigger] rows@[a])@.len() == self@.dim && forall|j: int|
                        0 <= j < self@.dim ==> (#[trigger] rows@[a]@[j])@ == dense_cell(
                            self@.entries,
                            a,
                            j,
                            self@.entries.len() as int,
                        ),
            decreases self.dim - i,
        {
            rows.push(self.dense_row(i));
            i += 1;
        }
        rows
    }
}

/// The text of a grid whose fields are already written out: one line for each
/// row, each field followed by the delimiter, each line ended by a line feed.
pub fn delimited_text(rows: &Vec<Vec<String>>, delimiter: &str) -> (r: String)
    ensures
        r@ == grid_text(rows@, delimiter@, rows@.len() as int),
{
    let mut text = String::new();
    let mut i: usize = 0;
    while i < rows.len()
        invariant
            i <= rows.len(),
            text@ =~= grid_text(rows@, delimiter@, i as int),
        decreases rows.len() - i,
    {
        let row = &rows[i];
        let ghost before = text@;
        let mut j: usize = 0;
        while j < row.len()
            invariant
                j <= row.len(),
                text@ =~= before + line_text(row@, delimiter@, j as int),
            decreases row.len() - j,
        {
            text.append(row[j].as_str());
            text.append(delimiter);
            j += 1;
        }
        text.append("\n");
        proof {
            reveal_strlit("\n");
            assert("\n"@ =~= seq!['\n']);
        }
        i += 1;
    }
    text
}

/// The dense text of a matrix whose probabilities are already written out: one
/// line for each row, each probability followed by a comma.
pub fn dense_text(rows: &Vec<Vec<String>>) -> (r: String)
    ensures
        r@ == grid_text(rows@, seq![','], rows@.len() as int),
{
    proof {
        reveal_strlit(",");
        assert(","@ =~= seq![',']);
    }
    delimited_text(rows, ",")
}

/// The name of the file that holds the dense text of a matrix: in the directory
/// `path`, for the traffic data source of the given name.
pub fn matrix_file_name(path: &str, data_source_str: &str) -> (r: String)
    ensures
        r@ == path@ + "/transition_matrix_"@ + data_source_str@ + ".csv"@,
{
    let mut name = String::new();
    name.append(path);
    name.append("/transition_matrix_");
    name.append(data_source_str);
    name.append(".csv");
    assert(name@ =~= path@ + "/transition_matrix_"@ + data_source_str@ + ".csv"@);
    name
}

} // verus!
