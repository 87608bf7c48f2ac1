//! The deterministic parts of rendering: the constraints diagram synthesized
//! from an OCL file, and the choice of the PlantUML command.
use vstd::prelude::*;
use crate::strings::decimal;
use crate::text::{
    cat, cat3, chars_of, ends_with, find_char_exec, find_char_from, find_from, find_from_exec, lines, lines_of, owned, push_str,
    starts_with, str_eq, string_of, string_of_range, strs, trim, trim_chars, trim_end, vviews,
};

verus! {

/// One `@id` block of an OCL file: its id, the `DOM-` element it
/// constrains, its context, and its remaining lines.
pub struct OclBlock {
    pub id: String,
    pub dom: Option<String>,
    pub ctx: Option<String>,
    pub body: Vec<String>,
}

pub open spec fn opt_view(o: Option<String>) -> Option<Seq<char>> {
    match o {
        Some(s) => Some(s@),
        None => None,
    }
}

impl View for OclBlock {
    type V = (Seq<char>, Option<Seq<char>>, Option<Seq<char>>, Seq<Seq<char>>);

    open spec fn view(&self) -> Self::V {
        (self.id@, opt_view(self.dom), opt_view(self.ctx), strs(self.body@))
    }
}

pub type BlockV = (Seq<char>, Option<Seq<char>>, Option<Seq<char>>, Seq<Seq<char>>);

pub open spec fn blocks_view(b: Seq<OclBlock>) -> Seq<BlockV> {
    b.map_values(|x: OclBlock| x@)
}

/// The trimmed text between `tag` and the next `)` of `line`.
pub open spec fn marker(line: Seq<char>, tag: Seq<char>) -> Option<Seq<char>> {
    match find_from(line, tag, 0) {
        None => None,
        Some(p) => {
            let start = p + tag.len();
            match find_char_from(line, ')', start) {
                None => None,
                Some(e) => Some(trim(line.subrange(start, e))),
            }
        },
    }
}

/// The blocks read from the lines so far.
pub open spec fn ocl_blocks(ls: Seq<Seq<char>>) -> Seq<BlockV>
    decreases ls.len(),
{
    if ls.len() == 0 {
        seq![]
    } else {
        let bs = ocl_blocks(ls.drop_last());
        let line = trim_end(ls.last());
        let t = trim(line);
        match marker(t, "@id("@) {
            Some(id) => bs.push((id, None, None, seq![])),
            None => if bs.len() == 0 {
                bs
            } else {
                let b = bs.last();
                let nb = match marker(t, "@ref("@) {
                    Some(r) => if starts_with(r, "DOM-"@) {
                        (b.0, Some(r), b.2, b.3)
                    } else {
                        b
                    },
                    None => if starts_with(t, "--"@) {
                        b
                    } else if starts_with(t, "context "@) {
                        (b.0, b.1, Some(trim(t.skip(8))), b.3)
                    } else if t.len() == 0 {
                        b
                    } else {
                        (b.0, b.1, b.2, b.3.push(line))
                    },
                };
                bs.drop_last().push(nb)
            },
        }
    }
}

/// A block's context, `constraints` when it names none.
pub open spec fn ctx_of(b: BlockV) -> Seq<char> {
    match b.2 {
        Some(c) => c,
        None => "constraints"@,
    }
}

/// Order-preserving de-duplication.
pub open spec fn dedup(items: Seq<Seq<char>>) -> Seq<Seq<char>>
    decreases items.len(),
{
    if items.len() == 0 {
        seq![]
    } else {
        let d = dedup(items.drop_last());
        if d.contains(items.last()) {
            d
        } else {
            d.push(items.last())
        }
    }
}

/// The distinct contexts, in order of first appearance.
pub open spec fn contexts_of(bs: Seq<BlockV>) -> Seq<Seq<char>> {
    dedup(bs.map_values(|b: BlockV| ctx_of(b)))
}

/// The domain elements named by the blocks, in order.
pub open spec fn doms_of(bs: Seq<BlockV>) -> Seq<Seq<char>>
    decreases bs.len(),
{
    if bs.len() == 0 {
        seq![]
    } else {
        match bs.last().1 {
            Some(d) => doms_of(bs.drop_last()).push(d),
            None => doms_of(bs.drop_last()),
        }
    }
}

/// `<kw> "<name>" as <P><i> <<stereo>>` for each name.
pub open spec fn node_lines(
    names: Seq<Seq<char>>,
    kw: Seq<char>,
    prefix: Seq<char>,
    stereo: Seq<char>,
) -> Seq<char>
    decreases names.len(),
{
    if names.len() == 0 {
        seq![]
    } else {
        node_lines(names.drop_last(), kw, prefix, stereo) + kw + " \""@ + names.last() + "\" as "@
            + prefix + decimal((names.len() - 1) as nat) + " "@ + stereo + "\n"@
    }
}

/// The body lines of a block, indented.
pub open spec fn body_lines(body: Seq<Seq<char>>) -> Seq<char>
    decreases body.len(),
{
    if body.len() == 0 {
        seq![]
    } else {
        body_lines(body.drop_last()) + "  "@ + trim_end(body.last()) + "\n"@
    }
}

/// The id and body of every block of context `c`.
pub open spec fn context_blocks(bs: Seq<BlockV>, c: Seq<char>) -> Seq<char>
    decreases bs.len(),
{
    if bs.len() == 0 {
        seq![]
    } else {
        let b = bs.last();
        context_blocks(bs.drop_last(), c) + if ctx_of(b) == c {
            "  "@ + b.0 + "\n"@ + body_lines(b.3)
        } else {
            seq![]
        }
    }
}

/// One note per context, holding its blocks.
pub open spec fn notes(cs: Seq<Seq<char>>, bs: Seq<BlockV>) -> Seq<char>
    decreases cs.len(),
{
    if cs.len() == 0 {
        seq![]
    } else {
        notes(cs.drop_last(), bs) + "note bottom of C"@ + decimal((cs.len() - 1) as nat) + "\n"@
            + context_blocks(bs, cs.last()) + "end note\n"@
    }
}

/// Index of the first `x` in `s` at or after `i`, 0 when absent.
pub open spec fn position_from(s: Seq<Seq<char>>, x: Seq<char>, i: int) -> nat
    decreases s.len() - i,
{
    if i < 0 || i >= s.len() {
        0
    } else if s[i] == x {
        i as nat
    } else {
        position_from(s, x, i + 1)
    }
}

/// Index of the first `x` in `s`, 0 when absent.
pub open spec fn position(s: Seq<Seq<char>>, x: Seq<char>) -> nat {
    position_from(s, x, 0)
}

/// An arrow from each block's context to its domain element.
pub open spec fn arrows(bs: Seq<BlockV>, cs: Seq<Seq<char>>, ds: Seq<Seq<char>>) -> Seq<char>
    decreases bs.len(),
{
    if bs.len() == 0 {
        seq![]
    } else {
        let b = bs.last();
        arrows(bs.drop_last(), cs, ds) + match b.1 {
            Some(d) => "C"@ + decimal(position(cs, ctx_of(b))) + " ..> D"@ + decimal(
                position(ds, d),
            ) + " : "@ + b.0 + "\n"@,
            None => seq![],
        }
    }
}

/// The constraints diagram of an OCL file.
pub open spec fn ocl_puml(ocl: Seq<char>, title: Seq<char>) -> Seq<char> {
    let bs = ocl_blocks(lines(ocl));
    let cs = contexts_of(bs);
    let ds = dedup(doms_of(bs));
    "@startuml\nallowmixing\ntitle OCL constraints — "@ + title
        + "\nleft to right direction\nskinparam wrapWidth 480\nskinparam classBackgroundColor #FFF8E1\nskinparam rectangleBackgroundColor #E3F2FD\n"@
        + node_lines(cs, "class"@, "C"@, "<<context>>"@) + node_lines(
        ds,
        "rectangle"@,
        "D"@,
        "<<domain>>"@,
    ) + notes(cs, bs) + arrows(bs, cs, ds) + "@enduml\n"@
}

/// The trimmed text between `tag` and the next `)` of `line`.
fn marker_exec(line: &[char], tag: &str) -> (r: Option<String>)
    ensures
        match r {
            Some(m) => marker(line@, tag@) == Some(m@),
            None => marker(line@, tag@) is None,
        },
{
    let tv = chars_of(tag);
    let line_len = line.len();
    match find_from_exec(line, tv.as_slice(), 0) {
        None => None,
        Some(p) => {
            proof {
                crate::text::lemma_find_from_range(line@, tag@, 0);
                assert(crate::text::occurs_at(line@, tag@, p as int));
                assert(p + tv@.len() <= line_len);
            }
            let start = p + tv.len();
            match find_char_exec(line, ')', start) {
                None => None,
                Some(e) => {
                    proof {
                        crate::text::lemma_find_char_from_range(line@, ')', start as int);
                    }
                    let inner = crate::text::slice_chars(line, start, e);
                    let t = trim_chars(inner.as_slice());
                    Some(string_of(t.as_slice()))
                },
            }
        },
    }
}

/// Order-preserving de-duplication of `items`.
fn dedup_exec(items: &Vec<String>) -> (r: Vec<String>)
    ensures
        strs(r@) == dedup(strs(items@)),
{
    let mut r: Vec<String> = Vec::new();
    let mut i: usize = 0;
    assert(strs(items@).take(0) =~= Seq::<Seq<char>>::empty());
    while i < items.len()
        invariant
            i <= items.len(),
            strs(r@) == dedup(strs(items@).take(i as int)),
        decreases items.len() - i,
    {
        proof {
            let t = strs(items@).take(i + 1);
            assert(t.drop_last() == strs(items@).take(i as int));
            assert(t.last() == items@[i as int]@);
        }
        if !crate::order::sorted_contains(&r, items[i].as_str()) {
            let ghost r0 = strs(r@);
            r.push(items[i].clone());
            assert(strs(r@) =~= r0.push(items@[i as int]@));
        }
        i = i + 1;
    }
    assert(strs(items@).take(items.len() as int) == strs(items@));
    r
}

/// Index of the first `x` in `s`, 0 when absent.
fn position_exec(s: &Vec<String>, x: &str) -> (r: usize)
    ensures
        r == position(strs(s@), x@),
{
    let mut i: usize = 0;
    while i < s.len()
        invariant
            i <= s.len(),
            position(strs(s@), x@) == position_from(strs(s@), x@, i as int),
        decreases s.len() - i,
    {
        if str_eq(s[i].as_str(), x) {
            return i;
        }
        i = i + 1;
    }
    0
}

fn push_decimal(out: &mut String, n: usize)
    ensures
        final(out)@ == old(out)@ + decimal(n as nat),
{
    let d = crate::strings::decimal_string(n as u64);
    push_str(out, d.as_str());
}

fn push_node_lines(out: &mut String, names: &Vec<String>, kw: &str, prefix: &str, stereo: &str)
    ensures
        final(out)@ == old(out)@ + node_lines(strs(names@), kw@, prefix@, stereo@),
{
    let ghost o0 = out@;
    let mut i: usize = 0;
    assert(strs(names@).take(0) =~= Seq::<Seq<char>>::empty());
    assert(o0 + Seq::<char>::empty() =~= o0);
    while i < names.len()
        invariant
            i <= names.len(),
            out@ == o0 + node_lines(strs(names@).take(i as int), kw@, prefix@, stereo@),
        decreases names.len() - i,
    {
        proof {
            let t = strs(names@).take(i + 1);
            assert(t.drop_last() == strs(names@).take(i as int));
            assert(t.last() == names@[i as int]@);
        }
        push_str(out, kw);
        push_str(out, " \"");
        push_str(out, names[i].as_str());
        push_str(out, "\" as ");
        push_str(out, prefix);
        push_decimal(out, i);
        push_str(out, " ");
        push_str(out, stereo);
        push_str(out, "\n");
        i = i + 1;
    }
    assert(strs(names@).take(names.len() as int) == strs(names@));
}

fn push_body_lines(out: &mut String, body: &Vec<String>)
    ensures
        final(out)@ == old(out)@ + body_lines(strs(body@)),
{
    let ghost o0 = out@;
    let mut i: usize = 0;
    assert(strs(body@).take(0) =~= Seq::<Seq<char>>::empty());
    assert(o0 + Seq::<char>::empty() =~= o0);
    while i < body.len()
        invariant
            i <= body.len(),
            out@ == o0 + body_lines(strs(body@).take(i as int)),
        decreases body.len() - i,
    {
        proof {
            let t = strs(body@).take(i + 1);
            assert(t.drop_last() == strs(body@).take(i as int));
            assert(t.last() == body@[i as int]@);
        }
        push_str(out, "  ");
        let v = chars_of(body[i].as_str());
        let te = crate::text::trim_end_chars(v.as_slice());
        let ts = string_of(te.as_slice());
        push_str(out, ts.as_str());
        push_str(out, "\n");
        i = i + 1;
    }
    assert(strs(body@).take(body.len() as int) == strs(body@));
}

fn ctx_text(b: &OclBlock) -> (r: &str)
    ensures
        r@ == ctx_of(b@),
{
    match &b.ctx {
        Some(c) => c.as_str(),
        None => "constraints",
    }
}

fn push_notes(out: &mut String, cs: &Vec<String>, bs: &Vec<OclBlock>)
    ensures
        final(out)@ == old(out)@ + notes(strs(cs@), blocks_view(bs@)),
{
    let ghost o0 = out@;
    let ghost bv = blocks_view(bs@);
    let mut i: usize = 0;
    assert(strs(cs@).take(0) =~= Seq::<Seq<char>>::empty());
    assert(o0 + Seq::<char>::empty() =~= o0);
    while i < cs.len()
        invariant
            i <= cs.len(),
            bv == blocks_view(bs@),
            out@ == o0 + notes(strs(cs@).take(i as int), bv),
        decreases cs.len() - i,
    {
        proof {
            let t = strs(cs@).take(i + 1);
            assert(t.drop_last() == strs(cs@).take(i as int));
            assert(t.last() == cs@[i as int]@);
        }
        push_str(out, "note bottom of C");
        push_decimal(out, i);
        push_str(out, "\n");
        let c = cs[i].as_str();
        let ghost o1 = out@;
        let mut k: usize = 0;
        assert(bv.take(0) =~= Seq::<BlockV>::empty());
        assert(o1 + Seq::<char>::empty() =~= o1);
        while k < bs.len()
            invariant
                k <= bs.len(),
                bv == blocks_view(bs@),
                out@ == o1 + context_blocks(bv.take(k as int), c@),
            decreases bs.len() - k,
        {
            proof {
                let t = bv.take(k + 1);
                assert(t.drop_last() == bv.take(k as int));
                assert(t.last() == bs@[k as int]@);
            }
            let b = &bs[k];
            if str_eq(ctx_text(b), c) {
                push_str(out, "  ");
                push_str(out, b.id.as_str());
                push_str(out, "\n");
                push_body_lines(out, &b.body);
            }
            k = k + 1;
        }
        assert(bv.take(bs.len() as int) == bv);
        push_str(out, "end note\n");
        i = i + 1;
    }
    assert(strs(cs@).take(cs.len() as int) == strs(cs@));
}

fn push_arrows(out: &mut String, bs: &Vec<OclBlock>, cs: &Vec<String>, ds: &Vec<String>)
    ensures
        final(out)@ == old(out)@ + arrows(blocks_view(bs@), strs(cs@), strs(ds@)),
{
    let ghost o0 = out@;
    let ghost bv = blocks_view(bs@);
    let mut k: usize = 0;
    assert(bv.take(0) =~= Seq::<BlockV>::empty());
    assert(o0 + Seq::<char>::empty() =~= o0);
    while k < bs.len()
        invariant
            k <= bs.len(),
            bv == blocks_view(bs@),
            out@ == o0 + arrows(bv.take(k as int), strs(cs@), strs(ds@)),
        decreases bs.len() - k,
    {
        proof {
            let t = bv.take(k + 1);
            assert(t.drop_last() == bv.take(k as int));
            assert(t.last() == bs@[k as int]@);
        }
        let b = &bs[k];
        match &b.dom {
            Some(d) => {
                let ci = position_exec(cs, ctx_text(b));
                let di = position_exec(ds, d.as_str());
                push_str(out, "C");
                push_decimal(out, ci);
                push_str(out, " ..> D");
                push_decimal(out, di);
                push_str(out, " : ");
                push_str(out, b.id.as_str());
                push_str(out, "\n");
            },
            None => {},
        }
        k = k + 1;
    }
    assert(bv.take(bs.len() as int) == bv);
}

/// The blocks of an OCL file, read line by line.
fn parse_blocks(ls: &Vec<Vec<char>>) -> (bs: Vec<OclBlock>)
    ensures
        blocks_view(bs@) == ocl_blocks(vviews(ls@)),
{
    let mut bs: Vec<OclBlock> = Vec::new();
    let ghost all = vviews(ls@);
    let mut i: usize = 0;
    assert(all.take(0) =~= Seq::<Seq<char>>::empty());
    assert(blocks_view(bs@) =~= Seq::<BlockV>::empty());
    proof {
        reveal_strlit("context ");
    }
    while i < ls.len()
        invariant
            i <= ls.len(),
            all == vviews(ls@),
            blocks_view(bs@) == ocl_blocks(all.take(i as int)),
        decreases ls.len() - i,
    {
        proof {
            assert(all.take(i + 1).drop_last() == all.take(i as int));
            assert(all.take(i + 1).last() == ls@[i as int]@);
        }
        let line = crate::text::trim_end_chars(ls[i].as_slice());
        let t = trim_chars(line.as_slice());
        let ghost b0 = blocks_view(bs@);
        match marker_exec(t.as_slice(), "@id(") {
            Some(id) => {
                let nb = OclBlock { id, dom: None, ctx: None, body: Vec::new() };
                assert(nb@.3 =~= Seq::<Seq<char>>::empty());
                bs.push(nb);
                assert(blocks_view(bs@) =~= b0.push(nb@));
            },
            None => {
                if bs.len() > 0 {
                    let mut b = bs.pop().unwrap();
                    let ghost bv0 = b@;
                    assert(b0.last() == bv0);
                    assert(blocks_view(bs@) =~= b0.drop_last());
                    let ts = string_of(t.as_slice());
                    match marker_exec(t.as_slice(), "@ref(") {
                        Some(r) => {
                            if crate::text::str_starts_with(r.as_str(), "DOM-") {
                                b.dom = Some(r);
                            }
                        },
                        None => {
                            if crate::text::str_starts_with(ts.as_str(), "--") {
                            } else if crate::text::str_starts_with(ts.as_str(), "context ") {
                                proof {
                                    reveal_strlit("context ");
                                }
                                let rest = crate::text::slice_chars(t.as_slice(), 8, t.len());
                                let rt = trim_chars(rest.as_slice());
                                b.ctx = Some(string_of(rt.as_slice()));
                            } else if t.len() == 0 {
                            } else {
                                let ghost body0 = strs(b.body@);
                                b.body.push(string_of(line.as_slice()));
                                assert(strs(b.body@) =~= body0.push(line@));
                            }
                        },
                    }
                    let ghost bd = blocks_view(bs@);
                    bs.push(b);
                    assert(blocks_view(bs@) =~= bd.push(b@));
                }
            },
        }
        i = i + 1;
    }
    assert(all.take(ls.len() as int) == all);
    bs
}

/// Synthesize a PlantUML constraints diagram from an OCL file: each
/// `context` becomes a class node, each referenced `DOM-` element a
/// rectangle, each context's invariants a note, and each block an arrow
/// from its context to its domain element.
pub fn synthesize_ocl_puml(ocl: &str, title: &str) -> (r: String)
    ensures
        r@ == ocl_puml(ocl@, title@),
{
    let ls = lines_of(ocl);
    let blocks = parse_blocks(&ls);
    let ghost bv = blocks_view(blocks@);
    let mut all_ctx: Vec<String> = Vec::new();
    let mut all_dom: Vec<String> = Vec::new();
    let mut k: usize = 0;
    assert(bv.take(0) =~= Seq::<BlockV>::empty());
    while k < blocks.len()
        invariant
            k <= blocks.len(),
            bv == blocks_view(blocks@),
            strs(all_ctx@) == bv.take(k as int).map_values(|b: BlockV| ctx_of(b)),
            strs(all_dom@) == doms_of(bv.take(k as int)),
        decreases blocks.len() - k,
    {
        proof {
            let t = bv.take(k + 1);
            assert(t.drop_last() == bv.take(k as int));
            assert(t.last() == blocks@[k as int]@);
        }
        let b = &blocks[k];
        let ghost c0 = strs(all_ctx@);
        let ghost d0 = strs(all_dom@);
        all_ctx.push(owned(ctx_text(b)));
        proof {
            assert(strs(all_ctx@) =~= c0.push(ctx_of(bv[k as int])));
            assert(bv.take(k + 1).map_values(|b: BlockV| ctx_of(b)) =~= bv.take(k as int).map_values(
                |b: BlockV| ctx_of(b),
            ).push(ctx_of(bv[k as int])));
        }
        match &b.dom {
            Some(d) => {
                all_dom.push(d.clone());
                assert(strs(all_dom@) =~= d0.push(d@));
            },
            None => {},
        }
        k = k + 1;
    }
    assert(bv.take(blocks.len() as int) == bv);
    let contexts = dedup_exec(&all_ctx);
    let domains = dedup_exec(&all_dom);
    let mut out = owned("@startuml\nallowmixing\ntitle OCL constraints — ");
    push_str(&mut out, title);
    push_str(
        &mut out,
        "\nleft to right direction\nskinparam wrapWidth 480\nskinparam classBackgroundColor #FFF8E1\nskinparam rectangleBackgroundColor #E3F2FD\n",
    );
    push_node_lines(&mut out, &contexts, "class", "C", "<<context>>");
    push_node_lines(&mut out, &domains, "rectangle", "D", "<<domain>>");
    push_notes(&mut out, &contexts, &blocks);
    push_arrows(&mut out, &blocks, &contexts, &domains);
    push_str(&mut out, "@enduml\n");
    out
}

// ---------------------------------------------------------------------------
// PlantUML command

/// How PlantUML is run: a jar under `java`, or `plantuml` on `PATH`.
#[derive(Clone, Debug, PartialEq, Eq)]
pub enum PlantUmlCommand {
    JavaJar { jar_path: String },
    PathExecutable,
}

impl View for PlantUmlCommand {
    /// The jar path, or none for the executable on `PATH`.
    type V = Option<Seq<char>>;

    open spec fn view(&self) -> Option<Seq<char>> {
        match self {
            PlantUmlCommand::JavaJar { jar_path } => Some(jar_path@),
            PlantUmlCommand::PathExecutable => None,
        }
    }
}

/// Error when PlantUML can be found nowhere.
pub const PLANTUML_MISSING: &'static str = "PlantUML is not available. Install the bundled mdd package with share/mdd/plantuml.jar and Java/OpenJDK, set MDD_PLANTUML_JAR=/path/to/plantuml.jar, or install `plantuml` on PATH.";

/// The first candidate that is a file.
pub open spec fn first_file(cands: Seq<(Seq<char>, bool)>, i: int) -> Option<Seq<char>>
    decreases cands.len() - i,
{
    if i < 0 || i >= cands.len() {
        None
    } else if cands[i].1 {
        Some(cands[i].0)
    } else {
        first_file(cands, i + 1)
    }
}

/// The PlantUML command chosen from the `MDD_PLANTUML_JAR` value (with
/// whether it names a file), the bundled jar candidates (each with whether
/// it is a file), and whether `plantuml` is on `PATH`: the variable wins
/// and must name a file, then the first bundled jar, then the executable.
pub open spec fn resolve_spec(
    env_jar: Option<Seq<char>>,
    env_jar_is_file: bool,
    cands: Seq<(Seq<char>, bool)>,
    on_path: bool,
) -> Result<Option<Seq<char>>, Seq<char>> {
    match env_jar {
        Some(v) => if v.len() == 0 {
            Err("MDD_PLANTUML_JAR is set but empty"@)
        } else if env_jar_is_file {
            Ok(Some(v))
        } else {
            Err("MDD_PLANTUML_JAR points to "@ + v + ", but that file does not exist"@)
        },
        None => match first_file(cands, 0) {
            Some(p) => Ok(Some(p)),
            None => if on_path {
                Ok(None)
            } else {
                Err(PLANTUML_MISSING@)
            },
        },
    }
}

pub open spec fn cands_view(c: Seq<(String, bool)>) -> Seq<(Seq<char>, bool)> {
    c.map_values(|x: (String, bool)| (x.0@, x.1))
}

impl PlantUmlCommand {
    /// Choose the PlantUML command (see `resolve_spec`).
    pub fn resolve_from(
        env_jar: Option<String>,
        env_jar_is_file: bool,
        bundled_candidates: Vec<(String, bool)>,
        plantuml_on_path: bool,
    ) -> (r: Result<PlantUmlCommand, String>)
        ensures
            match r {
                Ok(c) => resolve_spec(
                    opt_view(env_jar),
                    env_jar_is_file,
                    cands_view(bundled_candidates@),
                    plantuml_on_path,
                ) == Ok::<Option<Seq<char>>, Seq<char>>(c@),
                Err(e) => resolve_spec(
                    opt_view(env_jar),
                    env_jar_is_file,
                    cands_view(bundled_candidates@),
                    plantuml_on_path,
                ) == Err::<Option<Seq<char>>, Seq<char>>(e@),
            },
    {
        if let Some(value) = env_jar {
            {
                if chars_of(value.as_str()).len() == 0 {
                    return Err(owned("MDD_PLANTUML_JAR is set but empty"));
                }
                if env_jar_is_file {
                    return Ok(PlantUmlCommand::JavaJar { jar_path: value });
                }
                return Err(crate::text::cat3(
                    "MDD_PLANTUML_JAR points to ",
                    value.as_str(),
                    ", but that file does not exist",
                ));
            }
        }
        assert(env_jar is None);
        let ghost cv = cands_view(bundled_candidates@);
        let mut i: usize = 0;
        while i < bundled_candidates.len()
            invariant
                i <= bundled_candidates.len(),
                cv == cands_view(bundled_candidates@),
                env_jar is None,
                first_file(cv, 0) == first_file(cv, i as int),
            decreases bundled_candidates.len() - i,
        {
            if bundled_candidates[i].1 {
                let p = bundled_candidates[i].0.clone();
                assert(cv[i as int] == (bundled_candidates@[i as int].0@, bundled_candidates@[i as int].1));
                return Ok(PlantUmlCommand::JavaJar { jar_path: p });
            }
            i = i + 1;
        }
        if plantuml_on_path {
            return Ok(PlantUmlCommand::PathExecutable);
        }
        Err(owned(PLANTUML_MISSING))
    }

    /// The error when the command cannot be started.
    pub fn spawn_error(&self) -> (r: String)
        ensures
            r@ == match self@ {
                Some(p) => "failed to start `java` for PlantUML jar "@ + p
                    + "; install Java/OpenJDK or add `java` to PATH"@,
                None => "failed to start `plantuml`; install PlantUML or add it to PATH"@,
            },
    {
        match self {
            PlantUmlCommand::JavaJar { jar_path } => crate::text::cat3(
                "failed to start `java` for PlantUML jar ",
                jar_path.as_str(),
                "; install Java/OpenJDK or add `java` to PATH",
            ),
            PlantUmlCommand::PathExecutable => owned(
                "failed to start `plantuml`; install PlantUML or add it to PATH",
            ),
        }
    }

    /// The command as named in a failure report.
    pub fn failure_label(&self) -> (r: String)
        ensures
            r@ == match self@ {
                Some(p) => "java -jar "@ + p,
                None => "plantuml"@,
            },
    {
        match self {
            PlantUmlCommand::JavaJar { jar_path } => cat("java -jar ", jar_path.as_str()),
            PlantUmlCommand::PathExecutable => owned("plantuml"),
        }
    }
}

/// What one render run wrote and which sources failed.
pub struct RenderReport {
    /// Project-relative paths successfully written.
    pub rendered: Vec<String>,
    /// `path: message` for each source that failed to rasterize.
    pub diagnostics: Vec<String>,
}

/// What `mdd render` rasterizes.
pub enum RenderSelection {
    /// Every tree.
    All,
    /// Only the named trees.
    Trees(Vec<crate::model::RenderTree>),
    /// Explicit files or directories (directories walked for `*.puml` and
    /// `*.ocl`).
    Paths(Vec<String>),
}

/// The models render: it fails when the models hold no diagram at all
/// (nothing rendered and nothing failed).
pub fn render_project(report: RenderReport) -> (r: Result<RenderReport, String>)
    ensures
        (report.rendered@.len() == 0 && report.diagnostics@.len() == 0) ==> (r matches Err(e) && e@
            == "no PlantUML model files found under .mdd/models"@),
        !(report.rendered@.len() == 0 && report.diagnostics@.len() == 0) ==> r == Ok::<RenderReport, String>(report),
{
    if report.rendered.len() == 0 && report.diagnostics.len() == 0 {
        Err(owned("no PlantUML model files found under .mdd/models"))
    } else {
        Ok(report)
    }
}

/// What the cycle-diff render rasterizes: the cycle diffs tree.
pub fn render_cycle_diffs() -> (r: RenderSelection)
    ensures
        (r matches RenderSelection::Trees(ts) && ts@ == seq![crate::model::RenderTree::CycleDiffs]),
{
    let ts = vec![crate::model::RenderTree::CycleDiffs];
    assert(ts@ =~= seq![crate::model::RenderTree::CycleDiffs]);
    RenderSelection::Trees(ts)
}

/// What the constraint render rasterizes: the OCL tree.
pub fn render_ocl_diagrams() -> (r: RenderSelection)
    ensures
        (r matches RenderSelection::Trees(ts) && ts@ == seq![crate::model::RenderTree::OclConstraints]),
{
    let ts = vec![crate::model::RenderTree::OclConstraints];
    assert(ts@ =~= seq![crate::model::RenderTree::OclConstraints]);
    RenderSelection::Trees(ts)
}

/// The PlantUML text of a render source: an OCL file is synthesized into a
/// constraints diagram titled by its file stem (`constraints` when it has
/// none); any other source is rendered as it is.
pub fn render_source_text(is_ocl: bool, raw: &str, stem: Option<&str>) -> (r: String)
    ensures
        r@ == (if is_ocl {
            ocl_puml(
                raw@,
                match stem {
                    Some(s) => s@,
                    None => "constraints"@,
                },
            )
        } else {
            raw@
        }),
{
    if is_ocl {
        let title = match stem {
            Some(s) => s,
            None => "constraints",
        };
        synthesize_ocl_puml(raw, title)
    } else {
        owned(raw)
    }
}

/// Record one render: the output written, or the source's diagnostic.
pub fn record_render(report: &mut RenderReport, output_rel: &str, source_rel: &str, outcome: Result<(), String>)
    ensures
        outcome is Ok ==> crate::text::strs(final(report).rendered@) == crate::text::strs(old(report).rendered@).push(
            output_rel@,
        ) && final(report).diagnostics@ == old(report).diagnostics@,
        outcome matches Err(e) ==> crate::text::strs(final(report).diagnostics@) == crate::text::strs(
            old(report).diagnostics@,
        ).push(source_rel@ + ": "@ + e@) && final(report).rendered@ == old(report).rendered@,
{
    match outcome {
        Ok(()) => {
            let ghost r0 = crate::text::strs(report.rendered@);
            report.rendered.push(owned(output_rel));
            assert(crate::text::strs(report.rendered@) =~= r0.push(output_rel@));
        },
        Err(e) => {
            let ghost d0 = crate::text::strs(report.diagnostics@);
            report.diagnostics.push(cat3(source_rel, ": ", e.as_str()));
            assert(crate::text::strs(report.diagnostics@) =~= d0.push(source_rel@ + ": "@ + e@));
        },
    }
}

} // verus!
