use vstd::prelude::*;
use crate::shared::text::{str_chars, chars_to_string};

verus! {

/// Appends `b` to `a`.
pub fn extend_chars(a: &mut Vec<char>, b: &[char])
    ensures
        final(a)@ == old(a)@ + b@,
{
    let mut i: usize = 0;
    while i < b.len()
        invariant
            i <= b@.len(),
            a@ == old(a)@ + b@.take(i as int),
        decreases b@.len() - i,
    {
        proof {
            assert(b@.take(i + 1) =~= b@.take(i as int).push(b@[i as int]));
        }
        a.push(b[i]);
        i = i + 1;
    }
    proof {
        assert(b@.take(i as int) =~= b@);
    }
}

/// Appends the characters of `s` to `a`.
pub fn push_str(a: &mut Vec<char>, s: &str)
    ensures
        final(a)@ == old(a)@ + s@,
{
    let chars = str_chars(s);
    extend_chars(a, chars.as_slice());
}

/// The letter with index `d` (`A` for 0).
pub open spec fn letter(d: nat) -> char {
    if d == 0 {
        'A'
    } else
    if d == 1 {
        'B'
    } else
    if d == 2 {
        'C'
    } else
    if d == 3 {
        'D'
    } else
    if d == 4 {
        'E'
    } else
    if d == 5 {
        'F'
    } else
    if d == 6 {
        'G'
    } else
    if d == 7 {
        'H'
    } else
    if d == 8 {
        'I'
    } else
    if d == 9 {
        'J'
    } else
    if d == 10 {
        'K'
    } else
    if d == 11 {
        'L'
    } else
    if d == 12 {
        'M'
    } else
    if d == 13 {
        'N'
    } else
    if d == 14 {
        'O'
    } else
    if d == 15 {
        'P'
    } else
    if d == 16 {
        'Q'
    } else
    if d == 17 {
        'R'
    } else
    if d == 18 {
        'S'
    } else
    if d == 19 {
        'T'
    } else
    if d == 20 {
        'U'
    } else
    if d == 21 {
        'V'
    } else
    if d == 22 {
        'W'
    } else
    if d == 23 {
        'X'
    } else
    if d == 24 {
        'Y'
    } else {
        'Z'
    }
}

/// The id of the `n`th node: `A` to `Z`, then `AA`, `AB`, ... (bijective
/// base 26).
pub open spec fn node_id_spec(n: nat) -> Seq<char>
    decreases n,
{
    if n < 26 {
        seq![letter(n)]
    } else {
        node_id_spec((n / 26 - 1) as nat).push(letter(n % 26))
    }
}

/// The number a string of letters spells, `A` counting 1.
pub open spec fn id_value(s: Seq<char>) -> int
    decreases s.len(),
{
    if s.len() == 0 {
        0
    } else {
        id_value(s.drop_last()) * 26 + ((s.last() as u32) as int - 64)
    }
}

/// The text `pat` replaced by `rep` everywhere in `s`, left to right
/// (`str::replace`).
pub open spec fn replace_all(s: Seq<char>, pat: Seq<char>, rep: Seq<char>) -> Seq<char>
    recommends
        pat.len() > 0,
    decreases s.len(),
{
    if pat.len() == 0 || s.len() < pat.len() {
        s
    } else if s.take(pat.len() as int) == pat {
        rep + replace_all(s.skip(pat.len() as int), pat, rep)
    } else {
        seq![s[0]] + replace_all(s.drop_first(), pat, rep)
    }
}

/// Replaces `pat` by `rep` everywhere in `s`.
pub fn replace_chars(s: &[char], pat: &[char], rep: &[char]) -> (r: Vec<char>)
    requires
        pat@.len() > 0,
    ensures
        r@ == replace_all(s@, pat@, rep@),
{
    let mut out: Vec<char> = Vec::new();
    let mut i: usize = 0;
    proof {
        assert(s@.skip(0) =~= s@);
    }
    while i < s.len()
        invariant
            pat@.len() > 0,
            i <= s@.len(),
            out@ + replace_all(s@.skip(i as int), pat@, rep@) == replace_all(s@, pat@, rep@),
        decreases s@.len() - i,
    {
        let ghost rest = s@.skip(i as int);
        if s.len() - i >= pat.len() && matches_at(s, i, pat) {
            proof {
                assert(rest.take(pat@.len() as int) =~= s@.subrange(i as int, i + pat@.len()));
                assert(rest.skip(pat@.len() as int) =~= s@.skip(i + pat@.len()));
                assert(out@ + rep@ + replace_all(s@.skip(i + pat@.len()), pat@, rep@)
                    == out@ + (rep@ + replace_all(rest.skip(pat@.len() as int), pat@, rep@)));
            }
            extend_chars(&mut out, rep);
            i = i + pat.len();
        } else {
            proof {
                if rest.len() >= pat@.len() {
                    assert(rest.take(pat@.len() as int) =~= s@.subrange(i as int, i + pat@.len()));
                }
                assert(rest.drop_first() =~= s@.skip(i + 1));
                assert(out@.push(s@[i as int]) + replace_all(s@.skip(i + 1), pat@, rep@)
                    == out@ + (seq![rest[0]] + replace_all(rest.drop_first(), pat@, rep@)));
            }
            out.push(s[i]);
            i = i + 1;
        }
    }
    proof {
        assert(s@.skip(i as int) =~= Seq::<char>::empty());
        assert(out@ + Seq::<char>::empty() =~= out@);
    }
    out
}

/// Whether `pat` occurs in `s` at `i`.
fn matches_at(s: &[char], i: usize, pat: &[char]) -> (r: bool)
    requires
        i + pat@.len() <= s@.len(),
    ensures
        r == (s@.subrange(i as int, i + pat@.len()) == pat@),
{
    let n = s.len();
    let mut j: usize = 0;
    while j < pat.len()
        invariant
            n == s@.len(),
            i + pat@.len() <= s@.len(),
            j <= pat@.len(),
            forall|k: int| 0 <= k < j ==> s@[i + k] == pat@[k],
        decreases pat@.len() - j,
    {
        if s[i + j] != pat[j] {
            proof {
                assert(s@.subrange(i as int, i + pat@.len())[j as int] != pat@[j as int]);
            }
            return false;
        }
        j = j + 1;
    }
    proof {
        assert(s@.subrange(i as int, i + pat@.len()) =~= pat@);
    }
    true
}

/// A box of the flowchart: a label and the code under it.
pub struct Node {
    name: String,
    code: String,
    id: String,
}

/// A flowchart: its nodes, the number of nodes made so far, and its
/// arrows (from one node id to another).
pub struct Graph {
    nodes: Vec<Node>,
    current_id: usize,
    connection: Vec<(String, String)>,
}

pub struct NodeView {
    pub name: Seq<char>,
    pub code: Seq<char>,
    pub id: Seq<char>,
}

pub struct GraphView {
    pub nodes: Seq<NodeView>,
    pub current_id: nat,
    pub connection: Seq<(Seq<char>, Seq<char>)>,
}

impl View for Node {
    type V = NodeView;

    closed spec fn view(&self) -> NodeView {
        NodeView { name: self.name@, code: self.code@, id: self.id@ }
    }
}

impl View for Graph {
    type V = GraphView;

    closed spec fn view(&self) -> GraphView {
        GraphView {
            nodes: Seq::new(self.nodes@.len(), |i: int| self.nodes@[i]@),
            current_id: self.current_id as nat,
            connection: Seq::new(self.connection@.len(), |i: int| (self.connection@[i].0@, self.connection@[i].1@)),
        }
    }
}

/// The Graphviz text of a node: a table with the label in its header and
/// the code below, escaped for an HTML-like label.
pub open spec fn format_node_spec(node: NodeView) -> Seq<char> {
    let code = replace_all(
        replace_all(
            replace_all(
                replace_all(
                    replace_all(replace_all(node.code, "&"@, "&amp;"@), "\n"@, "<br ALIGN=\"LEFT\"/>"@),
                    "\t"@,
                    ""@,
                ),
                "  "@,
                ""@,
            ),
            "["@,
            "&#91;"@,
        ),
        "]"@,
        "&#93;"@,
    );
    "\t"@ + node.id + " [label=<\n\t\t<table border=\"1\" cellborder=\"0\" cellspacing=\"0\" bgcolor=\"#2d2d2d\">\n\t\t\t<tr><td bgcolor=\"#4a90d9\" align=\"left\"><font color=\"white\"><b>"@
        + node.name + "</b></font></td></tr>\n\t\t\t<tr><td align=\"left\"><font color=\"white\">"@ + code
        + "<br ALIGN=\"LEFT\"/></font></td></tr>\n\t\t</table>\n\t>]\n\n"@
}

/// The text of every node, in order.
pub open spec fn nodes_text(nodes: Seq<NodeView>) -> Seq<char>
    decreases nodes.len(),
{
    if nodes.len() == 0 {
        Seq::empty()
    } else {
        nodes_text(nodes.drop_last()) + format_node_spec(nodes.last())
    }
}

/// The text of every arrow, in order.
pub open spec fn edges_text(edges: Seq<(Seq<char>, Seq<char>)>) -> Seq<char>
    decreases edges.len(),
{
    if edges.len() == 0 {
        Seq::empty()
    } else {
        edges_text(edges.drop_last()) + "\t"@ + edges.last().0 + " -> "@ + edges.last().1 + "\n"@
    }
}

/// The whole Graphviz document: header, nodes, arrows.
pub open spec fn build_spec(g: GraphView) -> Seq<char> {
    "digraph {\n\trankdir=LR\n\tsplines=ortho\n\tnode [shape=none margin=0 fontname=monospace]\n\n"@
        + nodes_text(g.nodes) + edges_text(g.connection) + "}"@
}

impl GraphView {
    /// The id counter counts the nodes: the next node gets the id of its
    /// position.
    pub open spec fn ids_count_nodes(self) -> bool {
        self.current_id == self.nodes.len()
    }
}

impl Graph {
    /// Every graph's id counter equals its number of nodes.
    #[verifier::type_invariant]
    spec fn counter_matches(self) -> bool {
        self.current_id == self.nodes@.len()
    }

    pub fn new() -> (g: Graph)
        ensures
            g@.nodes.len() == 0,
            g@.current_id == 0,
            g@.connection.len() == 0,
            g@.ids_count_nodes(),
    {
        Graph { nodes: Vec::new(), current_id: 0, connection: Vec::new() }
    }

    /// Adds a node named `name` holding `code`; returns its id, made from
    /// the number of nodes added before it.
    pub fn add_node(&mut self, name: &str, code: &str) -> (id: String)
        requires
            old(self)@.current_id < usize::MAX,
        ensures
            id@ == node_id_spec(old(self)@.current_id),
            final(self)@.nodes == old(self)@.nodes.push(NodeView { name: name@, code: code@, id: id@ }),
            final(self)@.current_id == old(self)@.current_id + 1,
            final(self)@.connection == old(self)@.connection,
            final(self)@.ids_count_nodes(),
    {
        proof {
            use_type_invariant(&*self);
        }
        let ghost before = self@;
        let node = Node { name: name.to_owned(), code: code.to_owned(), id: Graph::node_id(self.current_id) };
        let id = node.id.clone();
        let mut taken = Graph::new();
        core::mem::swap(self, &mut taken);
        let Graph { mut nodes, current_id, connection } = taken;
        nodes.push(node);
        *self = Graph { nodes, current_id: current_id + 1, connection };
        proof {
            assert(self@.nodes =~= before.nodes.push(NodeView { name: name@, code: code@, id: id@ }));
            assert(self@.connection =~= before.connection);
        }
        id
    }

    /// The Graphviz document of the flowchart.
    pub fn build(&self) -> (r: String)
        ensures
            r@ == build_spec(self@),
    {
        let mut out: Vec<char> = Vec::new();
        push_str(&mut out, "digraph {\n\trankdir=LR\n\tsplines=ortho\n\tnode [shape=none margin=0 fontname=monospace]\n\n");
        let ghost header = out@;
        let mut i: usize = 0;
        proof {
            assert(self@.nodes.take(0) =~= Seq::<NodeView>::empty());
            assert(out@ =~= header + nodes_text(self@.nodes.take(0)));
        }
        while i < self.nodes.len()
            invariant
                i <= self.nodes@.len(),
                self@.nodes.len() == self.nodes@.len(),
                header == "digraph {\n\trankdir=LR\n\tsplines=ortho\n\tnode [shape=none margin=0 fontname=monospace]\n\n"@,
                out@ == header + nodes_text(self@.nodes.take(i as int)),
            decreases self.nodes@.len() - i,
        {
            let text = self.format_node(&self.nodes[i]);
            let tc = str_chars(text.as_str());
            proof {
                assert(self@.nodes.take(i + 1).drop_last() =~= self@.nodes.take(i as int));
                assert(self@.nodes.take(i + 1).last() == self.nodes@[i as int]@);
            }
            extend_chars(&mut out, tc.as_slice());
            proof {
                assert(out@ =~= header + nodes_text(self@.nodes.take(i + 1)));
            }
            i = i + 1;
        }
        proof {
            assert(self@.nodes.take(i as int) =~= self@.nodes);
        }
        let ghost with_nodes = out@;
        let mut j: usize = 0;
        proof {
            assert(self@.connection.take(0) =~= Seq::<(Seq<char>, Seq<char>)>::empty());
            assert(out@ =~= with_nodes + edges_text(self@.connection.take(0)));
        }
        while j < self.connection.len()
            invariant
                j <= self.connection@.len(),
                self@.connection.len() == self.connection@.len(),
                out@ == with_nodes + edges_text(self@.connection.take(j as int)),
            decreases self.connection@.len() - j,
        {
            let (from, to) = &self.connection[j];
            push_str(&mut out, "\t");
            push_str(&mut out, from.as_str());
            push_str(&mut out, " -> ");
            push_str(&mut out, to.as_str());
            push_str(&mut out, "\n");
            proof {
                assert(self@.connection.take(j + 1).drop_last() =~= self@.connection.take(j as int));
                assert(self@.connection.take(j + 1).last() == (from@, to@));
                assert(out@ =~= with_nodes + edges_text(self@.connection.take(j + 1)));
            }
            j = j + 1;
        }
        proof {
            assert(self@.connection.take(j as int) =~= self@.connection);
        }
        push_str(&mut out, "}");
        chars_to_string(out.as_slice())
    }

    /// Adds an arrow from `a` to `b`, unless there is one already.
    pub fn connect_nodes(&mut self, a: &String, b: &String)
        ensures
            final(self)@.nodes == old(self)@.nodes,
            final(self)@.current_id == old(self)@.current_id,
            final(self)@.connection == if old(self)@.connection.contains((a@, b@)) {
                old(self)@.connection
            } else {
                old(self)@.connection.push((a@, b@))
            },
            final(self)@.ids_count_nodes(),
    {
        proof {
            use_type_invariant(&*self);
        }
        let ghost before = self@;
        let mut i: usize = 0;
        while i < self.connection.len()
            invariant
                i <= self.connection@.len(),
                before == self@,
                before.ids_count_nodes(),
                forall|k: int| 0 <= k < i ==> self@.connection[k] != (a@, b@),
            decreases self.connection@.len() - i,
        {
            if self.connection[i].0 == *a && self.connection[i].1 == *b {
                proof {
                    assert(self@.connection[i as int] == (a@, b@));
                }
                return;
            }
            i = i + 1;
        }
        let pair = (a.clone(), b.clone());
        let mut taken = Graph::new();
        core::mem::swap(self, &mut taken);
        let Graph { nodes, current_id, mut connection } = taken;
        connection.push(pair);
        *self = Graph { nodes, current_id, connection };
        proof {
            assert(self@.connection =~= before.connection.push((a@, b@)));
            assert(self@.nodes =~= before.nodes);
        }
    }

    pub fn node_count(&self) -> (r: usize)
        ensures
            r == self@.nodes.len(),
            r == self@.current_id,
    {
        proof {
            use_type_invariant(self);
        }
        self.nodes.len()
    }

    /// The Graphviz text of `node`.
    fn format_node(&self, node: &Node) -> (r: String)
        ensures
            r@ == format_node_spec(node@),
    {
        proof {
            reveal_strlit("&");
            reveal_strlit("\n");
            reveal_strlit("\t");
            reveal_strlit("  ");
            reveal_strlit("[");
            reveal_strlit("]");
        }
        let code = str_chars(node.code.as_str());
        let code = replace_chars(code.as_slice(), str_chars("&").as_slice(), str_chars("&amp;").as_slice());
        let code = replace_chars(code.as_slice(), str_chars("\n").as_slice(), str_chars("<br ALIGN=\"LEFT\"/>").as_slice());
        let code = replace_chars(code.as_slice(), str_chars("\t").as_slice(), str_chars("").as_slice());
        let code = replace_chars(code.as_slice(), str_chars("  ").as_slice(), str_chars("").as_slice());
        let code = replace_chars(code.as_slice(), str_chars("[").as_slice(), str_chars("&#91;").as_slice());
        let code = replace_chars(code.as_slice(), str_chars("]").as_slice(), str_chars("&#93;").as_slice());
        let mut out: Vec<char> = Vec::new();
        push_str(&mut out, "\t");
        push_str(&mut out, node.id.as_str());
        push_str(&mut out, " [label=<\n\t\t<table border=\"1\" cellborder=\"0\" cellspacing=\"0\" bgcolor=\"#2d2d2d\">\n\t\t\t<tr><td bgcolor=\"#4a90d9\" align=\"left\"><font color=\"white\"><b>");
        push_str(&mut out, node.name.as_str());
        push_str(&mut out, "</b></font></td></tr>\n\t\t\t<tr><td align=\"left\"><font color=\"white\">");
        extend_chars(&mut out, code.as_slice());
        push_str(&mut out, "<br ALIGN=\"LEFT\"/></font></td></tr>\n\t\t</table>\n\t>]\n\n");
        chars_to_string(out.as_slice())
    }

    /// The id of the `n`th node.
    pub fn node_id(n: usize) -> (r: String)
        ensures
            r@ == node_id_spec(n as nat),
    {
        let digits = node_id_chars(n);
        chars_to_string(digits.as_slice())
    }

    /// The number of the node with id `s`.
    pub fn id_to_node(s: &str) -> (r: usize)
        requires
            s@.len() > 0,
            forall|i: int| 0 <= i < s@.len() ==> (#[trigger] s@[i] as u32) >= 65,
            id_value(s@) <= usize::MAX,
        ensures
            r == id_value(s@) - 1,
    {
        let chars = str_chars(s);
        let mut acc: usize = 0;
        let mut i: usize = 0;
        while i < chars.len()
            invariant
                chars@ == s@,
                i <= chars@.len(),
                chars@.len() > 0,
                forall|k: int| 0 <= k < chars@.len() ==> (#[trigger] chars@[k] as u32) >= 65,
                id_value(chars@) <= usize::MAX,
                acc == id_value(chars@.take(i as int)),
            decreases chars@.len() - i,
        {
            proof {
                assert(chars@.take(i + 1).drop_last() =~= chars@.take(i as int));
                lemma_id_value_grows(chars@, i + 1);
            }
            let c = chars[i];
            let code = c as u32;
            proof {
                assert(chars@[i as int] == c);
                assert(code >= 65);
                assert(chars@.take(i + 1).last() == c);
            }
            acc = acc * 26 + (code - 64) as usize;
            i = i + 1;
        }
        proof {
            assert(chars@.take(i as int) =~= chars@);
            lemma_id_value_positive(chars@);
        }
        acc - 1
    }
}

/// The value of a string of letters is never negative.
proof fn lemma_id_value_nonneg(s: Seq<char>)
    requires
        forall|i: int| 0 <= i < s.len() ==> (#[trigger] s[i] as u32) >= 65,
    ensures
        id_value(s) >= 0,
    decreases s.len(),
{
    if s.len() > 0 {
        let d = s.drop_last();
        assert forall|i: int| 0 <= i < d.len() implies (#[trigger] d[i] as u32) >= 65 by {
            assert(d[i] == s[i]);
        }
        lemma_id_value_nonneg(d);
        assert(s.last() == s[s.len() - 1]);
    }
}

/// `id_value` of a prefix of letters is at most that of the whole.
proof fn lemma_id_value_grows(s: Seq<char>, k: int)
    requires
        0 <= k <= s.len(),
        forall|i: int| 0 <= i < s.len() ==> (#[trigger] s[i] as u32) >= 65,
    ensures
        0 <= id_value(s.take(k)) <= id_value(s),
    decreases s.len(),
{
    if k == s.len() {
        assert(s.take(k) =~= s);
        lemma_id_value_nonneg(s);
    } else {
        let d = s.drop_last();
        assert forall|i: int| 0 <= i < d.len() implies (#[trigger] d[i] as u32) >= 65 by {
            assert(d[i] == s[i]);
        }
        assert(d.take(k) =~= s.take(k));
        lemma_id_value_grows(d, k);
        lemma_id_value_nonneg(d);
        assert(s.last() == s[s.len() - 1]);
    }
}

/// A non-empty string of letters has a positive value.
proof fn lemma_id_value_positive(s: Seq<char>)
    requires
        s.len() > 0,
        forall|i: int| 0 <= i < s.len() ==> (#[trigger] s[i] as u32) >= 65,
    ensures
        id_value(s) >= 1,
{
    let d = s.drop_last();
    assert forall|i: int| 0 <= i < d.len() implies (#[trigger] d[i] as u32) >= 65 by {
        assert(d[i] == s[i]);
    }
    lemma_id_value_nonneg(d);
    assert(s.last() == s[s.len() - 1]);
}

/// The letters of the `n`th node id.
fn node_id_chars(n: usize) -> (r: Vec<char>)
    ensures
        r@ == node_id_spec(n as nat),
    decreases n,
{
    let d = (n % 26) as u32;
    let c = char_of_letter(d);
    if n < 26 {
        vec![c]
    } else {
        let mut r = node_id_chars(n / 26 - 1);
        r.push(c);
        r
    }
}

/// The letter with index `d`.
fn char_of_letter(d: u32) -> (c: char)
    requires
        d < 26,
    ensures
        c == letter(d as nat),
{
    let c = match d {
        0 => 'A',
        1 => 'B',
        2 => 'C',
        3 => 'D',
        4 => 'E',
        5 => 'F',
        6 => 'G',
        7 => 'H',
        8 => 'I',
        9 => 'J',
        10 => 'K',
        11 => 'L',
        12 => 'M',
        13 => 'N',
        14 => 'O',
        15 => 'P',
        16 => 'Q',
        17 => 'R',
        18 => 'S',
        19 => 'T',
        20 => 'U',
        21 => 'V',
        22 => 'W',
        23 => 'X',
        24 => 'Y',
        _ => 'Z',
    };
    c
}

/// The id of node `n` names node `n` again.
pub proof fn lemma_node_id_roundtrip(n: nat)
    ensures
        id_value(node_id_spec(n)) == n + 1,
        node_id_spec(n).len() > 0,
        forall|i: int| 0 <= i < node_id_spec(n).len() ==> 65 <= (#[trigger] node_id_spec(n)[i] as u32) < 91,
    decreases n,
{
    if n < 26 {
        let s = node_id_spec(n);
        assert((letter(n) as u32) == 65 + n);
        assert(s.drop_last() =~= Seq::<char>::empty());
        assert(s.last() == letter(n));
        assert(id_value(s.drop_last()) == 0);
        assert(id_value(s) == n + 1);
    } else {
        let m = (n / 26 - 1) as nat;
        lemma_node_id_roundtrip(m);
        let s = node_id_spec(n);
        assert(s.drop_last() =~= node_id_spec(m));
        assert((letter(n % 26) as u32) == 65 + n % 26);
        assert(s.last() == letter(n % 26));
        assert(id_value(s) == (m + 1) * 26 + (n % 26) + 1);
        assert(m + 1 == n / 26);
        assert((n / 26) * 26 + n % 26 == n);
        assert forall|i: int| 0 <= i < s.len() implies 65 <= (#[trigger] s[i] as u32) < 91 by {
            if i < s.len() - 1 {
                assert(s[i] == node_id_spec(m)[i]);
            }
        }
    }
}

/// Whether every character of `s` is a capital letter `A` to `Z`.
pub open spec fn all_capitals(s: Seq<char>) -> bool {
    forall|i: int| 0 <= i < s.len() ==> 65 <= (#[trigger] s[i] as u32) <= 90
}

/// The capital letter whose index is `c`'s place in the alphabet is `c`.
proof fn lemma_letter_of_capital(c: char)
    requires
        65 <= (c as u32) <= 90,
    ensures
        letter(((c as u32) - 65) as nat) == c,
{
    let d = ((c as u32) - 65) as nat;
    assert((letter(d) as u32) == 65 + d);
}

/// Letters read as a node number name that node again: the id of the node
/// that a nonempty string of capitals stands for is that string.
pub proof fn lemma_id_node_roundtrip(s: Seq<char>)
    requires
        s.len() > 0,
        all_capitals(s),
    ensures
        id_value(s) >= 1,
        node_id_spec((id_value(s) - 1) as nat) == s,
    decreases s.len(),
{
    assert forall|i: int| 0 <= i < s.len() implies (#[trigger] s[i] as u32) >= 65 by {}
    lemma_id_value_positive(s);
    let c = s.last();
    let d = ((c as u32) - 65) as nat;
    lemma_letter_of_capital(c);
    let t = s.drop_last();
    if t.len() == 0 {
        assert(id_value(t) == 0);
        assert(id_value(s) == d + 1);
        assert(node_id_spec(d) =~= s);
    } else {
        assert forall|i: int| 0 <= i < t.len() implies 65 <= (#[trigger] t[i] as u32) <= 90 by {
            assert(t[i] == s[i]);
        }
        lemma_id_node_roundtrip(t);
        let v = id_value(t);
        let n = (id_value(s) - 1) as nat;
        assert(n == v * 26 + d);
        assert(n / 26 == v && n % 26 == d) by (nonlinear_arith)
            requires
                n == v * 26 + d,
                0 <= d < 26,
                v >= 1,
        ;
        assert(n >= 26);
        assert(node_id_spec(n) == node_id_spec((v - 1) as nat).push(letter(d)));
        assert(t.push(c) =~= s);
    }
}

} // verus!
