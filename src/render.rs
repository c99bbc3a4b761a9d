//! What one drawing writes: the graph description text and the file names of
//! the description, the two images and the two "latest" pointers.
use vstd::prelude::*;
use crate::color::{Rgb, color_index, color_index_spec, hex_color, push_hex_color};
use crate::graph::{topo_edges, topo_edge, topo_edge_count};
use crate::tree::{MindGraph, NodeData};

verus! {

/// The decimal digit of `d`.
pub open spec fn digit(d: int) -> char {
    "0123456789"@[d]
}

/// `n` in decimal, without leading zeros.
pub open spec fn decimal(n: nat) -> Seq<char>
    decreases n,
{
    if n < 10 {
        seq![digit(n as int)]
    } else {
        decimal(n / 10).push(digit((n % 10) as int))
    }
}

/// The last `width` decimal digits of `n`, zeros in front.
pub open spec fn padded(n: nat, width: nat) -> Seq<char>
    decreases width,
{
    if width == 0 {
        Seq::empty()
    } else {
        padded(n / 10, (width - 1) as nat).push(digit((n % 10) as int))
    }
}

fn push_digit(out: &mut String, d: usize)
    requires
        d < 10,
    ensures
        final(out)@ == old(out)@.push(digit(d as int)),
{
    let digits = "0123456789";
    proof {
        reveal_strlit("0123456789");
    }
    let one = digits.substring_char(d, d + 1);
    out.append(one);
    proof {
        assert(one@ =~= seq![digit(d as int)]);
    }
}

/// Appends `n` in decimal.
pub fn push_decimal(out: &mut String, n: usize)
    ensures
        final(out)@ == old(out)@ + decimal(n as nat),
    decreases n,
{
    if n >= 10 {
        push_decimal(out, n / 10);
    }
    push_digit(out, n % 10);
    assert(final(out)@ =~= old(out)@ + decimal(n as nat));
}

/// Appends the last `width` digits of `n`, zeros in front.
pub fn push_padded(out: &mut String, n: u32, width: u32)
    ensures
        final(out)@ == old(out)@ + padded(n as nat, width as nat),
    decreases width,
{
    if width > 0 {
        push_padded(out, n / 10, width - 1);
        push_digit(out, (n % 10) as usize);
    }
    assert(final(out)@ =~= old(out)@ + padded(n as nat, width as nat));
}

/// A local date and time of day.
#[derive(Clone, Copy, Debug, PartialEq, Eq)]
pub struct Stamp {
    pub year: u32,
    pub month: u32,
    pub day: u32,
    pub hour: u32,
    pub minute: u32,
    pub second: u32,
}

impl Stamp {
    /// Fields in their ranges; the year has at most four digits.
    pub open spec fn wf(&self) -> bool {
        &&& self.year <= 9999
        &&& 1 <= self.month <= 12
        &&& 1 <= self.day <= 31
        &&& self.hour < 24
        &&& self.minute < 60
        &&& self.second < 61
    }

    /// `YYYYMMDD_HHMMSS`, which sorts as the times do.
    pub open spec fn text(&self) -> Seq<char> {
        padded(self.year as nat, 4) + padded(self.month as nat, 2) + padded(self.day as nat, 2) + "_"@
            + padded(self.hour as nat, 2) + padded(self.minute as nat, 2) + padded(self.second as nat, 2)
    }

    /// Appends `YYYYMMDD_HHMMSS`.
    pub fn push_text(&self, out: &mut String)
        ensures
            final(out)@ == old(out)@ + self.text(),
    {
        let ghost start = out@;
        push_padded(out, self.year, 4);
        push_padded(out, self.month, 2);
        push_padded(out, self.day, 2);
        out.append("_");
        push_padded(out, self.hour, 2);
        push_padded(out, self.minute, 2);
        push_padded(out, self.second, 2);
        assert(out@ =~= start + self.text());
    }
}

/// The label of a node: its segment, and its value on a line of its own when it
/// has one.
pub open spec fn label_text(nd: NodeData) -> Seq<char> {
    if nd.value@.len() == 0 {
        nd.label@
    } else {
        nd.label@ + "\n"@ + nd.value@
    }
}

/// The declaration of node `i`.
pub open spec fn node_line(i: nat, nd: NodeData, palette: Seq<Rgb>) -> Seq<char> {
    "    n"@ + decimal(i) + " [label=\""@ + label_text(nd) + "\", fillcolor=\""@
        + hex_color(palette[color_index_spec(nd.level as int, palette.len() as int)]) + "\", shape=box];\n"@
}

/// The declarations of the first `k` nodes.
pub open spec fn nodes_text(nodes: Seq<NodeData>, palette: Seq<Rgb>, k: nat) -> Seq<char>
    decreases k,
{
    if k == 0 {
        Seq::empty()
    } else {
        nodes_text(nodes, palette, (k - 1) as nat) + node_line((k - 1) as nat, nodes[k - 1], palette)
    }
}

/// The declaration of an edge.
pub open spec fn edge_line(e: (usize, usize)) -> Seq<char> {
    "    n"@ + decimal(e.0 as nat) + " -> n"@ + decimal(e.1 as nat) + " [color=\"#666666\"];\n"@
}

/// The declarations of the first `k` edges.
pub open spec fn edges_text(edges: Seq<(usize, usize)>, k: nat) -> Seq<char>
    decreases k,
{
    if k == 0 {
        Seq::empty()
    } else {
        edges_text(edges, (k - 1) as nat) + edge_line(edges[k - 1])
    }
}

/// The opening of the description: graph and node defaults.
pub open spec fn dot_head() -> Seq<char> {
    "digraph {\n    graph [rankdir=LR, splines=ortho];\n    node [style=filled, fontname=Arial];\n"@
}

/// The whole description of `g` colored with `palette`.
pub open spec fn dot_spec(g: MindGraph, palette: Seq<Rgb>) -> Seq<char> {
    dot_head() + nodes_text(g.nodes@, palette, g.nodes@.len()) + edges_text(
        topo_edges(g.topology),
        topo_edges(g.topology).len(),
    ) + "}\n"@
}

fn push_label(out: &mut String, nd: &NodeData)
    ensures
        final(out)@ == old(out)@ + label_text(*nd),
{
    out.append(nd.label.as_str());
    if nd.value.as_str().unicode_len() > 0 {
        out.append("\n");
        out.append(nd.value.as_str());
    }
    assert(final(out)@ =~= old(out)@ + label_text(*nd));
}

/// The directed-graph description of `g`: one declaration per node, with its
/// label and the palette color of its depth, then one per edge.
pub fn dot_text(g: &MindGraph, palette: &Vec<Rgb>) -> (r: String)
    requires
        g.wf(),
        palette@.len() >= 1,
    ensures
        r@ == dot_spec(*g, palette@),
{
    let mut out = String::new();
    out.append("digraph {\n    graph [rankdir=LR, splines=ortho];\n    node [style=filled, fontname=Arial];\n");
    let mut i: usize = 0;
    while i < g.nodes.len()
        invariant
            i <= g.nodes@.len(),
            palette@.len() >= 1,
            out@ == dot_head() + nodes_text(g.nodes@, palette@, i as nat),
        decreases g.nodes@.len() - i,
    {
        let nd = &g.nodes[i];
        let ghost before = out@;
        out.append("    n");
        push_decimal(&mut out, i);
        out.append(" [label=\"");
        push_label(&mut out, nd);
        out.append("\", fillcolor=\"");
        let c = color_index(nd.level, palette.len());
        push_hex_color(&mut out, palette[c]);
        out.append("\", shape=box];\n");
        assert(out@ =~= before + node_line(i as nat, *nd, palette@));
        assert(nodes_text(g.nodes@, palette@, (i + 1) as nat) == nodes_text(g.nodes@, palette@, i as nat)
            + node_line(i as nat, g.nodes@[i as int], palette@));
        i = i + 1;
    }
    let ghost mid = out@;
    let m = topo_edge_count(&g.topology);
    let mut x: usize = 0;
    while x < m
        invariant
            x <= m,
            m == topo_edges(g.topology).len(),
            out@ == mid + edges_text(topo_edges(g.topology), x as nat),
        decreases m - x,
    {
        let (a, b) = topo_edge(&g.topology, x);
        let ghost before = out@;
        out.append("    n");
        push_decimal(&mut out, a);
        out.append(" -> n");
        push_decimal(&mut out, b);
        out.append(" [color=\"#666666\"];\n");
        assert(out@ =~= before + edge_line(topo_edges(g.topology)[x as int]));
        x = x + 1;
    }
    out.append("}\n");
    assert(out@ =~= dot_spec(*g, palette@));
    out
}

/// The timestamped file of one drawing, with extension `ext`.
pub open spec fn artifact_path(dir: Seq<char>, stamp: Stamp, ext: Seq<char>) -> Seq<char> {
    dir + "/mqtt_mind_map_"@ + stamp.text() + "."@ + ext
}

/// The pointer to the newest drawing with extension `ext`.
pub open spec fn latest_path(dir: Seq<char>, ext: Seq<char>) -> Seq<char> {
    dir + "/mqtt_mind_map_latest."@ + ext
}

/// Everything one drawing writes: the description's text and file, the two
/// image files, and the two pointers that are to refer to those images once
/// both exist.
pub struct RenderPlan {
    pub dot_content: String,
    pub dot_path: String,
    pub svg_path: String,
    pub png_path: String,
    pub latest_svg: String,
    pub latest_png: String,
}

fn artifact(dir: &String, stamp: &Stamp, ext: &str) -> (r: String)
    ensures
        r@ == artifact_path(dir@, *stamp, ext@),
{
    let mut out = dir.clone();
    out.append("/mqtt_mind_map_");
    stamp.push_text(&mut out);
    out.append(".");
    out.append(ext);
    out
}

fn latest(dir: &String, ext: &str) -> (r: String)
    ensures
        r@ == latest_path(dir@, ext@),
{
    let mut out = dir.clone();
    out.append("/mqtt_mind_map_latest.");
    out.append(ext);
    out
}

/// The plan of the drawing of `g` at `stamp` into directory `dir`.
pub fn render_plan(g: &MindGraph, palette: &Vec<Rgb>, dir: &String, stamp: &Stamp) -> (r: RenderPlan)
    requires
        g.wf(),
        palette@.len() >= 1,
    ensures
        r.dot_content@ == dot_spec(*g, palette@),
        r.dot_path@ == artifact_path(dir@, *stamp, "dot"@),
        r.svg_path@ == artifact_path(dir@, *stamp, "svg"@),
        r.png_path@ == artifact_path(dir@, *stamp, "png"@),
        r.latest_svg@ == latest_path(dir@, "svg"@),
        r.latest_png@ == latest_path(dir@, "png"@),
{
    RenderPlan {
        dot_content: dot_text(g, palette),
        dot_path: artifact(dir, stamp, "dot"),
        svg_path: artifact(dir, stamp, "svg"),
        png_path: artifact(dir, stamp, "png"),
        latest_svg: latest(dir, "svg"),
        latest_png: latest(dir, "png"),
    }
}

/// The steps of one drawing, in order; a failed step ends it.
#[derive(Clone, Copy, Debug, PartialEq, Eq, Structural)]
pub enum RenderStep {
    WriteDot,
    DrawSvg,
    DrawPng,
    PointSvg,
    PointPng,
    Done,
    Failed,
}

/// The step after `step`, given whether it succeeded.
pub open spec fn next_step_spec(step: RenderStep, ok: bool) -> RenderStep {
    match step {
        RenderStep::Done => RenderStep::Done,
        RenderStep::Failed => RenderStep::Failed,
        _ => if !ok {
            RenderStep::Failed
        } else {
            match step {
                RenderStep::WriteDot => RenderStep::DrawSvg,
                RenderStep::DrawSvg => RenderStep::DrawPng,
                RenderStep::DrawPng => RenderStep::PointSvg,
                RenderStep::PointSvg => RenderStep::PointPng,
                _ => RenderStep::Done,
            }
        },
    }
}

/// Where a drawing stands after the outcomes `oks` of its steps so far.
pub open spec fn run_steps(oks: Seq<bool>) -> RenderStep
    decreases oks.len(),
{
    if oks.len() == 0 {
        RenderStep::WriteDot
    } else {
        next_step_spec(run_steps(oks.drop_last()), oks.last())
    }
}

/// The step after `step`, given whether it succeeded: the next in order, or
/// `Failed` at the first failure; `Done` and `Failed` stay.
pub fn next_step(step: RenderStep, ok: bool) -> (r: RenderStep)
    ensures
        r == next_step_spec(step, ok),
{
    match step {
        RenderStep::Done => RenderStep::Done,
        RenderStep::Failed => RenderStep::Failed,
        _ => if !ok {
            RenderStep::Failed
        } else {
            match step {
                RenderStep::WriteDot => RenderStep::DrawSvg,
                RenderStep::DrawSvg => RenderStep::DrawPng,
                RenderStep::DrawPng => RenderStep::PointSvg,
                RenderStep::PointSvg => RenderStep::PointPng,
                _ => RenderStep::Done,
            }
        },
    }
}

/// A drawing moves a "latest" pointer only once the description and both
/// images were written: the first three steps succeeded.
pub proof fn lemma_pointers_after_images(oks: Seq<bool>)
    requires
        run_steps(oks) == RenderStep::PointSvg || run_steps(oks) == RenderStep::PointPng
            || run_steps(oks) == RenderStep::Done,
    ensures
        oks.len() >= 3,
        oks[0] && oks[1] && oks[2],
    decreases oks.len(),
{
    let r = run_steps(oks);
    assert(oks.len() > 0);
    let p = oks.drop_last();
    let q = run_steps(p);
    if q == RenderStep::DrawPng {
        lemma_reached_png(p);
        assert(oks[0] == p[0] && oks[1] == p[1]);
    } else {
        lemma_pointers_after_images(p);
        assert(oks[0] == p[0] && oks[1] == p[1] && oks[2] == p[2]);
    }
}

proof fn lemma_reached_png(oks: Seq<bool>)
    requires
        run_steps(oks) == RenderStep::DrawPng,
    ensures
        oks.len() == 2,
        oks[0] && oks[1],
    decreases oks.len(),
{
    let p = oks.drop_last();
    let q = run_steps(p);
    assert(q == RenderStep::DrawSvg);
    lemma_reached_svg(p);
}

proof fn lemma_reached_svg(oks: Seq<bool>)
    requires
        run_steps(oks) == RenderStep::DrawSvg,
    ensures
        oks.len() == 1,
        oks[0],
{
    let p = oks.drop_last();
    if p.len() > 0 {
        let q = run_steps(p);
        assert(q != RenderStep::WriteDot) by {
            lemma_not_back_to_start(p);
        }
    }
}

proof fn lemma_not_back_to_start(oks: Seq<bool>)
    requires
        oks.len() > 0,
    ensures
        run_steps(oks) != RenderStep::WriteDot,
{
}

/// 10 to the power `w`.
pub open spec fn ten_pow(w: nat) -> nat
    decreases w,
{
    if w == 0 {
        1
    } else {
        10 * ten_pow((w - 1) as nat)
    }
}

proof fn lemma_padded_len(n: nat, w: nat)
    ensures
        padded(n, w).len() == w,
    decreases w,
{
    if w > 0 {
        lemma_padded_len(n / 10, (w - 1) as nat);
    }
}

proof fn lemma_padded_injective(a: nat, b: nat, w: nat)
    requires
        a < ten_pow(w),
        b < ten_pow(w),
        padded(a, w) == padded(b, w),
    ensures
        a == b,
    decreases w,
{
    reveal_strlit("0123456789");
    if w == 0 {
    } else {
        let pa = padded(a / 10, (w - 1) as nat);
        let pb = padded(b / 10, (w - 1) as nat);
        lemma_padded_len(a / 10, (w - 1) as nat);
        lemma_padded_len(b / 10, (w - 1) as nat);
        assert(pa == padded(a, w).drop_last());
        assert(pb == padded(b, w).drop_last());
        let t = ten_pow((w - 1) as nat);
        assert(a / 10 < t) by (nonlinear_arith)
            requires
                a < 10 * t,
        ;
        assert(b / 10 < t) by (nonlinear_arith)
            requires
                b < 10 * t,
        ;
        lemma_padded_injective(a / 10, b / 10, (w - 1) as nat);
        assert(padded(a, w)[w - 1] == digit((a % 10) as int));
        assert(padded(b, w)[w - 1] == digit((b % 10) as int));
        assert(digit((a % 10) as int) == digit((b % 10) as int));
        assert(a % 10 == b % 10);
    }
}

/// Drawings at different times write different files: a new drawing never
/// overwrites the files that an earlier drawing's pointers refer to.
pub proof fn lemma_artifact_paths_distinct(dir: Seq<char>, s1: Stamp, s2: Stamp, ext: Seq<char>)
    requires
        s1.wf(),
        s2.wf(),
        s1 != s2,
    ensures
        artifact_path(dir, s1, ext) != artifact_path(dir, s2, ext),
{
    let head = dir + "/mqtt_mind_map_"@;
    let fields1 = seq![s1.year as nat, s1.month as nat, s1.day as nat, s1.hour as nat, s1.minute as nat, s1.second as nat];
    let fields2 = seq![s2.year as nat, s2.month as nat, s2.day as nat, s2.hour as nat, s2.minute as nat, s2.second as nat];
    lemma_padded_len(s1.year as nat, 4);
    lemma_padded_len(s1.month as nat, 2);
    lemma_padded_len(s1.day as nat, 2);
    lemma_padded_len(s1.hour as nat, 2);
    lemma_padded_len(s1.minute as nat, 2);
    lemma_padded_len(s1.second as nat, 2);
    lemma_padded_len(s2.year as nat, 4);
    lemma_padded_len(s2.month as nat, 2);
    lemma_padded_len(s2.day as nat, 2);
    lemma_padded_len(s2.hour as nat, 2);
    lemma_padded_len(s2.minute as nat, 2);
    lemma_padded_len(s2.second as nat, 2);
    reveal_strlit("_");
    if artifact_path(dir, s1, ext) == artifact_path(dir, s2, ext) {
        let path_a = artifact_path(dir, s1, ext);
        let path_b = artifact_path(dir, s2, ext);
        let h = head.len() as int;
        assert(s1.text().len() == 15);
        assert(path_a.subrange(h, h + 15) =~= s1.text());
        assert(path_b.subrange(h, h + 15) =~= s2.text());
        let t1 = s1.text();
        let t2 = s2.text();
        assert(t1.subrange(0, 4) =~= padded(s1.year as nat, 4));
        assert(t2.subrange(0, 4) =~= padded(s2.year as nat, 4));
        assert(t1.subrange(4, 6) =~= padded(s1.month as nat, 2));
        assert(t2.subrange(4, 6) =~= padded(s2.month as nat, 2));
        assert(t1.subrange(6, 8) =~= padded(s1.day as nat, 2));
        assert(t2.subrange(6, 8) =~= padded(s2.day as nat, 2));
        assert(t1.subrange(9, 11) =~= padded(s1.hour as nat, 2));
        assert(t2.subrange(9, 11) =~= padded(s2.hour as nat, 2));
        assert(t1.subrange(11, 13) =~= padded(s1.minute as nat, 2));
        assert(t2.subrange(11, 13) =~= padded(s2.minute as nat, 2));
        assert(t1.subrange(13, 15) =~= padded(s1.second as nat, 2));
        assert(t2.subrange(13, 15) =~= padded(s2.second as nat, 2));
        assert(ten_pow(0) == 1);
        assert(ten_pow(1) == 10);
        assert(ten_pow(2) == 100);
        assert(ten_pow(3) == 1000);
        assert(ten_pow(4) == 10000);
        lemma_padded_injective(s1.year as nat, s2.year as nat, 4);
        lemma_padded_injective(s1.month as nat, s2.month as nat, 2);
        lemma_padded_injective(s1.day as nat, s2.day as nat, 2);
        lemma_padded_injective(s1.hour as nat, s2.hour as nat, 2);
        lemma_padded_injective(s1.minute as nat, s2.minute as nat, 2);
        lemma_padded_injective(s1.second as nat, s2.second as nat, 2);
    }
}

} // verus!
