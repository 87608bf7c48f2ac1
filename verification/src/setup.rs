//! `mdd init` and `mdd clean`, decision side: the managed block that init
//! keeps in the agent instruction files, and what happens to each file
//! init writes or clean removes.
use vstd::prelude::*;
use vstd::string::StringSliceAdditionalSpecFns;
use crate::digest::{hash_str, sha256_hex};
use crate::model::{APPROVALS_FILE, CONFIG_FILE, InitFileConflict, InitReport, TRACE_FILE};
use crate::templates::{AGENTS_ENTRYPOINT, RALPH_PLAN, SkillTemplate, SkillV, UML_AND_OCL_GUIDE_DOC, skill_markdown, skill_markdown_spec, skill_view, workflow_skills, workflow_skills_spec};
use crate::templates::{MDD_BLOCK_BEGIN, MDD_BLOCK_END, MDD_META_PREFIX, MDD_META_SUFFIX};
use crate::text::{
    is_ws, lemma_find_from_at, lemma_trim_empty_iff, lemma_ws_suffix_append, starts_with,
    cat, cat3, chars_of, ends_with, find, find_char_exec, find_char_from, find_from, find_from_exec, lemma_find_char_from_range,
    lemma_find_from_range, occurs_at, owned, push_str, str_ends_with, str_eq, string_of, string_of_range, trim, trim_chars,
    trim_end, trim_end_chars,
};

verus! {

/// A hexadecimal digit, lower case.
pub open spec fn hex_digit(n: int) -> char {
    if n < 10 {
        (('0' as int) + n) as char
    } else {
        (('a' as int) + n - 10) as char
    }
}

/// How a JSON string literal writes one character: `"` and `\` behind a
/// backslash, the control characters with a short escape as `\b`, `\t`,
/// `\n`, `\f`, `\r`, the other control characters (below U+0020) as
/// `\u00` and two lower-case hex digits, everything else as itself.
pub open spec fn json_char(c: char) -> Seq<char> {
    if c == '"' {
        seq!['\\', '"']
    } else if c == '\\' {
        seq!['\\', '\\']
    } else if c == '\u{8}' {
        seq!['\\', 'b']
    } else if c == '\t' {
        seq!['\\', 't']
    } else if c == '\n' {
        seq!['\\', 'n']
    } else if c == '\u{c}' {
        seq!['\\', 'f']
    } else if c == '\r' {
        seq!['\\', 'r']
    } else if (c as u32) < 0x20 {
        seq!['\\', 'u', '0', '0', hex_digit((c as int) / 16), hex_digit((c as int) % 16)]
    } else {
        seq![c]
    }
}

/// The escaped text of a JSON string literal.
pub open spec fn json_escaped(s: Seq<char>) -> Seq<char>
    decreases s.len(),
{
    if s.len() == 0 {
        seq![]
    } else {
        json_escaped(s.drop_last()) + json_char(s.last())
    }
}

/// What `serde_json::to_string` writes for a string: the escaped text in
/// double quotes.
pub open spec fn json_string(s: Seq<char>) -> Seq<char> {
    seq!['"'] + json_escaped(s) + seq!['"']
}

/// `serde_json::to_string(s)` for a string: the text in double quotes with
/// each character escaped as `json_char` says. Serializing a string writes
/// into a byte vector and does not fail.
#[verifier::external_body]
fn json_quote(s: &str) -> (r: Result<String, ()>)
    ensures
        r is Ok,
        r matches Ok(q) ==> q@ == json_string(s@),
{
    serde_json::to_string(s).map_err(|_| ())
}

/// The metadata line's JSON: tool, schema, kind and the body's digest, in
/// that order, as `serde_json` writes the metadata record.
pub open spec fn meta_json(kind_json: Seq<char>, body: Seq<char>) -> Seq<char> {
    "{\"tool\":\"mdd\",\"schema\":1,\"kind\":"@ + kind_json + ",\"content_sha256\":\""@ + sha256_hex(vstd::utf8::encode_utf8(body))
        + "\"}"@
}

/// The managed block: the begin sentinel, the metadata line, the body
/// (ending in a newline), the end sentinel.
pub open spec fn managed_block_spec(kind_json: Seq<char>, body: Seq<char>) -> Seq<char> {
    MDD_BLOCK_BEGIN@ + "\n"@ + MDD_META_PREFIX@ + meta_json(kind_json, body) + MDD_META_SUFFIX@ + "\n"@ + (if ends_with(
        body,
        "\n"@,
    ) {
        body
    } else {
        body + "\n"@
    }) + MDD_BLOCK_END@ + "\n"@
}

/// The block `mdd init` writes into an agent instruction file. Writing the
/// kind as JSON cannot fail, so the block is always rendered.
pub fn render_managed_block(kind: &str, body: &str) -> (r: Result<String, String>)
    ensures
        r matches Ok(b) && b@ == managed_block_spec(json_string(kind@), body@),
{
    let kj = match json_quote(kind) {
        Ok(q) => q,
        Err(_) => {
            return Err(cat("failed to serialize mdd block metadata for ", kind));
        },
    };
    let sha = hash_str(body);
    let mut r = cat3(MDD_BLOCK_BEGIN, "\n", MDD_META_PREFIX);
    push_str(&mut r, "{\"tool\":\"mdd\",\"schema\":1,\"kind\":");
    push_str(&mut r, kj.as_str());
    push_str(&mut r, ",\"content_sha256\":\"");
    push_str(&mut r, sha.as_str());
    push_str(&mut r, "\"}");
    push_str(&mut r, MDD_META_SUFFIX);
    push_str(&mut r, "\n");
    push_str(&mut r, body);
    if !str_ends_with(body, "\n") {
        push_str(&mut r, "\n");
    }
    push_str(&mut r, MDD_BLOCK_END);
    push_str(&mut r, "\n");
    Ok(r)
}

/// Where the managed block lies: from its begin sentinel through the
/// newline after its end sentinel (when there is one).
pub open spec fn managed_span(content: Seq<char>) -> Option<(int, int)> {
    match find(content, MDD_BLOCK_BEGIN@) {
        None => None,
        Some(b) => match find_from(content, MDD_BLOCK_END@, b) {
            None => None,
            Some(m) => {
                let e = m + MDD_BLOCK_END@.len();
                if e < content.len() && content[e] == '\n' {
                    Some((b, e + 1))
                } else {
                    Some((b, e))
                }
            },
        },
    }
}

/// Locate the managed block (character offsets).
pub fn find_managed_block(content: &[char]) -> (r: Option<(usize, usize)>)
    ensures
        match managed_span(content@) {
            Some((b, e)) => r is Some && r.unwrap().0 as int == b && r.unwrap().1 as int == e && 0 <= b <= e
                <= content@.len(),
            None => r is None,
        },
{
    let n: usize = content.len();
    let begin = chars_of(MDD_BLOCK_BEGIN);
    let end = chars_of(MDD_BLOCK_END);
    let b = match find_from_exec(content, begin.as_slice(), 0) {
        Some(b) => b,
        None => {
            return None;
        },
    };
    proof {
        lemma_find_from_range(content@, MDD_BLOCK_BEGIN@, 0);
    }
    let m = match find_from_exec(content, end.as_slice(), b) {
        Some(m) => m,
        None => {
            return None;
        },
    };
    proof {
        lemma_find_from_range(content@, MDD_BLOCK_END@, b as int);
        assert(occurs_at(content@, MDD_BLOCK_END@, m as int));
        assert(m + end@.len() <= n);
    }
    let e = m + end.len();
    if e < content.len() && content[e] == '\n' {
        Some((b, e + 1))
    } else {
        Some((b, e))
    }
}

/// The body of a located block: between the end of the metadata line and
/// the end sentinel (none when either is missing or they cross).
pub open spec fn block_body(block: Seq<char>) -> Option<Seq<char>> {
    match find(block, MDD_META_PREFIX@) {
        None => None,
        Some(ms) => match find_char_from(block, '\n', ms) {
            None => None,
            Some(nl) => match find(block, MDD_BLOCK_END@) {
                None => None,
                Some(em) => if nl + 1 > em {
                    None
                } else {
                    Some(block.subrange(nl + 1, em))
                },
            },
        },
    }
}

fn block_body_exec(block: &[char]) -> (r: Option<String>)
    ensures
        opt_view(r) == block_body(block@),
{
    let n: usize = block.len();
    let prefix = chars_of(MDD_META_PREFIX);
    let end = chars_of(MDD_BLOCK_END);
    let ms = match find_from_exec(block, prefix.as_slice(), 0) {
        Some(x) => x,
        None => {
            return None;
        },
    };
    proof {
        lemma_find_from_range(block@, MDD_META_PREFIX@, 0);
    }
    let nl = match find_char_exec(block, '\n', ms) {
        Some(x) => x,
        None => {
            return None;
        },
    };
    proof {
        lemma_find_char_from_range(block@, '\n', ms as int);
        assert(nl < n);
    }
    let em = match find_from_exec(block, end.as_slice(), 0) {
        Some(x) => x,
        None => {
            return None;
        },
    };
    proof {
        lemma_find_from_range(block@, MDD_BLOCK_END@, 0);
        assert(occurs_at(block@, MDD_BLOCK_END@, em as int));
    }
    if nl + 1 > em {
        None
    } else {
        Some(string_of_range(block, nl + 1, em))
    }
}

pub open spec fn opt_view(o: Option<String>) -> Option<Seq<char>> {
    match o {
        Some(s) => Some(s@),
        None => None,
    }
}

/// The metadata JSON of a located block: after the metadata prefix, up to
/// the metadata suffix, trimmed.
pub open spec fn block_meta(block: Seq<char>) -> Option<Seq<char>> {
    match find(block, MDD_META_PREFIX@) {
        None => None,
        Some(p) => {
            let ms = p + MDD_META_PREFIX@.len();
            match find_from(block, MDD_META_SUFFIX@, ms) {
                None => None,
                Some(me) => Some(trim(block.subrange(ms, me))),
            }
        },
    }
}

fn block_meta_exec(block: &[char]) -> (r: Option<String>)
    ensures
        opt_view(r) == block_meta(block@),
{
    let n: usize = block.len();
    let prefix = chars_of(MDD_META_PREFIX);
    let suffix = chars_of(MDD_META_SUFFIX);
    let p = match find_from_exec(block, prefix.as_slice(), 0) {
        Some(x) => x,
        None => {
            return None;
        },
    };
    proof {
        lemma_find_from_range(block@, MDD_META_PREFIX@, 0);
        assert(occurs_at(block@, MDD_META_PREFIX@, p as int));
        assert(p + prefix@.len() <= n);
    }
    let ms = p + prefix.len();
    let me = match find_from_exec(block, suffix.as_slice(), ms) {
        Some(x) => x,
        None => {
            return None;
        },
    };
    proof {
        lemma_find_from_range(block@, MDD_META_SUFFIX@, ms as int);
        assert(occurs_at(block@, MDD_META_SUFFIX@, me as int));
    }
    let inner = crate::text::slice_chars(block, ms, me);
    let t = trim_chars(inner.as_slice());
    Some(string_of(t.as_slice()))
}

/// The metadata JSON of the managed block of a file, for its digest to be
/// read from (none when the file has no block or the line is malformed).
pub fn managed_block_meta(content: &str) -> (r: Option<String>)
    ensures
        opt_view(r) == match managed_span(content@) {
            Some((b, e)) => block_meta(content@.subrange(b, e)),
            None => None,
        },
{
    let cs = chars_of(content);
    match find_managed_block(cs.as_slice()) {
        None => None,
        Some((b, e)) => {
            let block = crate::text::slice_chars(cs.as_slice(), b, e);
            block_meta_exec(block.as_slice())
        },
    }
}

/// The content of a file after (re)writing the managed block: the block
/// replaces an existing one in place; otherwise it is appended after a
/// blank line (or is the whole file when the file is empty).
pub open spec fn with_block(current: Seq<char>, block: Seq<char>) -> Seq<char> {
    match managed_span(current) {
        Some((b, e)) => current.take(b) + block + current.skip(e),
        None => if current.len() == 0 {
            block
        } else if ends_with(current, "\n\n"@) {
            current + block
        } else if ends_with(current, "\n"@) {
            current + "\n"@ + block
        } else {
            current + "\n\n"@ + block
        },
    }
}

/// What writing the managed block does to a file.
pub enum BlockWrite {
    /// The file did not exist: create it with this content.
    Create(String),
    /// The file changes: write this content.
    Update(String),
    /// The file already holds the block.
    Unchanged,
}

pub open spec fn block_write_spec(current: Option<Seq<char>>, block: Seq<char>) -> Option<(bool, Seq<char>)> {
    match current {
        None => Some((true, block)),
        Some(c) => if with_block(c, block) == c {
            None
        } else {
            Some((false, with_block(c, block)))
        },
    }
}

pub open spec fn block_write_view(w: BlockWrite) -> Option<(bool, Seq<char>)> {
    match w {
        BlockWrite::Create(s) => Some((true, s@)),
        BlockWrite::Update(s) => Some((false, s@)),
        BlockWrite::Unchanged => None,
    }
}

/// Write (or refresh in place) the managed block of a file whose current
/// content is given (`None` when it does not exist); what the user wrote
/// around the block is kept.
pub fn managed_block_update(current: Option<&str>, block: &str) -> (r: BlockWrite)
    ensures
        block_write_view(r) == block_write_spec(
            match current {
                Some(c) => Some(c@),
                None => None,
            },
            block@,
        ),
{
    let cur = match current {
        None => {
            return BlockWrite::Create(owned(block));
        },
        Some(c) => c,
    };
    let cs = chars_of(cur);
    let updated = match find_managed_block(cs.as_slice()) {
        Some((b, e)) => {
            let mut u = string_of_range(cs.as_slice(), 0, b);
            push_str(&mut u, block);
            let tail = string_of_range(cs.as_slice(), e, cs.len());
            push_str(&mut u, tail.as_str());
            assert(cur@.take(b as int) == cur@.subrange(0, b as int));
            assert(cur@.skip(e as int) == cur@.subrange(e as int, cur@.len() as int));
            u
        },
        None => {
            if cs.len() == 0 {
                owned(block)
            } else if str_ends_with(cur, "\n\n") {
                cat(cur, block)
            } else if str_ends_with(cur, "\n") {
                cat3(cur, "\n", block)
            } else {
                cat3(cur, "\n\n", block)
            }
        },
    };
    if str_eq(updated.as_str(), cur) {
        BlockWrite::Unchanged
    } else {
        BlockWrite::Update(updated)
    }
}

/// What removing the managed block does to a file.
pub enum BlockRemoval {
    /// The file holds no block: leave it.
    NoBlock,
    /// The block was edited by hand: leave it (unless forced).
    Modified,
    /// The block was all there was: delete the file.
    DeleteFile,
    /// Write what remains around the block.
    Rewrite(String),
}

/// What is left around a block.
pub open spec fn remainder(content: Seq<char>, b: int, e: int) -> Seq<char> {
    content.take(b) + content.skip(e)
}

/// The block is as written: its recorded digest is that of its body.
pub open spec fn block_verified(block: Seq<char>, meta_sha: Option<Seq<char>>) -> bool {
    match (meta_sha, block_body(block)) {
        (Some(sha), Some(body)) => sha == sha256_hex(vstd::utf8::encode_utf8(body)),
        _ => false,
    }
}

pub open spec fn removal_spec(content: Seq<char>, force: bool, meta_sha: Option<Seq<char>>) -> Option<Option<Seq<char>>> {
    match managed_span(content) {
        None => None,
        Some((b, e)) => if !force && !block_verified(content.subrange(b, e), meta_sha) {
            Some(None)
        } else if trim(remainder(content, b, e)).len() == 0 {
            Some(Some(seq![]))
        } else {
            Some(Some(trim_end(remainder(content, b, e)) + "\n"@))
        },
    }
}

/// Strip the managed block from a file, given the digest its metadata
/// records (`meta_sha`, read from `managed_block_meta`): a block edited by
/// hand is left unless `force`; the file is deleted when nothing else
/// remains, else rewritten without the block.
pub fn managed_block_removal(content: &str, force: bool, meta_sha: Option<String>) -> (r: BlockRemoval)
    ensures
        match managed_span(content@) {
            None => r is NoBlock,
            Some((b, e)) => {
                let rem = remainder(content@, b, e);
                if !force && !block_verified(content@.subrange(b, e), opt_view(meta_sha)) {
                    r is Modified
                } else if trim(rem).len() == 0 {
                    r is DeleteFile
                } else {
                    r matches BlockRemoval::Rewrite(t) && t@ == trim_end(rem) + "\n"@
                }
            },
        },
{
    let cs = chars_of(content);
    let (b, e) = match find_managed_block(cs.as_slice()) {
        None => {
            return BlockRemoval::NoBlock;
        },
        Some(span) => span,
    };
    if !force {
        let block = crate::text::slice_chars(cs.as_slice(), b, e);
        let verified = match (&meta_sha, block_body_exec(block.as_slice())) {
            (Some(sha), Some(body)) => {
                let h = hash_str(body.as_str());
                str_eq(sha.as_str(), h.as_str())
            },
            _ => false,
        };
        if !verified {
            return BlockRemoval::Modified;
        }
    }
    let mut rem: Vec<char> = crate::text::slice_chars(cs.as_slice(), 0, b);
    let tail = crate::text::slice_chars(cs.as_slice(), e, cs.len());
    let mut k: usize = 0;
    let ghost r0 = rem@;
    while k < tail.len()
        invariant
            k <= tail.len(),
            rem@ == r0 + tail@.take(k as int),
        decreases tail.len() - k,
    {
        rem.push(tail[k]);
        assert(tail@.take(k + 1) == tail@.take(k as int).push(tail@[k as int]));
        k = k + 1;
    }
    assert(tail@.take(tail.len() as int) == tail@);
    assert(rem@ =~= remainder(content@, b as int, e as int));
    let t = trim_chars(rem.as_slice());
    if t.len() == 0 {
        return BlockRemoval::DeleteFile;
    }
    let te = trim_end_chars(rem.as_slice());
    let mut out = string_of(te.as_slice());
    push_str(&mut out, "\n");
    BlockRemoval::Rewrite(out)
}

/// A managed block as init writes one: it opens with the begin sentinel and
/// closes with the end sentinel and a newline, and holds no other end
/// sentinel.
pub open spec fn block_well_formed(block: Seq<char>) -> bool {
    &&& starts_with(block, MDD_BLOCK_BEGIN@)
    &&& ends_with(block, MDD_BLOCK_END@ + "\n"@)
    &&& forall|k: int| #[trigger] occurs_at(block, MDD_BLOCK_END@, k) ==> k == block.len() - MDD_BLOCK_END@.len() - 1
}

proof fn lemma_sentinels()
    ensures
        MDD_BLOCK_BEGIN@.len() > 0,
        MDD_BLOCK_END@.len() > 0,
        forall|j: int| 0 <= j < MDD_BLOCK_BEGIN@.len() ==> #[trigger] MDD_BLOCK_BEGIN@[j] != '\n',
{
    reveal_strlit("<!-- mdd:begin -->");
    reveal_strlit("<!-- mdd:end -->");
}

proof fn lemma_newlines()
    ensures
        "\n"@ == seq!['\n'],
        "\n\n"@ == seq!['\n', '\n'],
{
    reveal_strlit("\n");
    reveal_strlit("\n\n");
}

/// A well-formed block placed after text in which no begin sentinel starts
/// is the file's managed block.
proof fn lemma_span_of_placed(x: Seq<char>, bl: Seq<char>, y: Seq<char>)
    requires
        block_well_formed(bl),
        forall|i: int| 0 <= i < x.len() ==> !#[trigger] occurs_at(x + bl, MDD_BLOCK_BEGIN@, i),
    ensures
        managed_span(x + bl + y) == Some((x.len() as int, (x.len() + bl.len()) as int)),
{
    lemma_sentinels();
    lemma_newlines();
    let r = x + bl + y;
    let n = x.len() as int;
    let bg = MDD_BLOCK_BEGIN@;
    let en = MDD_BLOCK_END@;
    let l = bg.len() as int;
    let el = en.len() as int;
    assert(bl.take(l) == bg);
    assert(bl.skip(bl.len() - el - 1) == en + "\n"@);
    assert(r.subrange(n, n + l) =~= bl.take(l));
    assert forall|k: int| 0 <= k < n implies !occurs_at(r, bg, k) by {
        assert(!occurs_at(x + bl, bg, k));
        assert(r.subrange(k, k + l) =~= (x + bl).subrange(k, k + l));
    }
    lemma_find_from_at(r, bg, 0, n);
    let m = n + bl.len() - el - 1;
    assert(r.subrange(m, m + el) =~= bl.subrange(m - n, m - n + el));
    assert(bl.subrange(m - n, m - n + el) =~= bl.skip(bl.len() - el - 1).take(el));
    assert((en + "\n"@).take(el) =~= en);
    assert forall|k: int| n <= k < m implies !occurs_at(r, en, k) by {
        if occurs_at(r, en, k) {
            assert(bl.subrange(k - n, k - n + el) =~= r.subrange(k, k + el));
            assert(occurs_at(bl, en, k - n));
        }
    }
    lemma_find_from_at(r, en, n, m);
    assert(r[m + el] == (en + "\n"@)[el]);
}

/// No begin sentinel starts before a block placed after text without one,
/// separated by newlines (or after text ending in a newline).
proof fn lemma_no_begin_before(c: Seq<char>, t: Seq<char>, bl: Seq<char>)
    requires
        block_well_formed(bl),
        find(c, MDD_BLOCK_BEGIN@) is None,
        forall|j: int| 0 <= j < t.len() ==> #[trigger] t[j] == '\n',
        t.len() > 0 || c.len() == 0 || c.last() == '\n',
    ensures
        forall|i: int| 0 <= i < (c + t).len() ==> !#[trigger] occurs_at(c + t + bl, MDD_BLOCK_BEGIN@, i),
{
    lemma_sentinels();
    lemma_find_from_range(c, MDD_BLOCK_BEGIN@, 0);
    let bg = MDD_BLOCK_BEGIN@;
    let l = bg.len() as int;
    let z = c + t + bl;
    assert forall|i: int| 0 <= i < (c + t).len() implies !#[trigger] occurs_at(z, bg, i) by {
        if occurs_at(z, bg, i) {
            if i + l <= c.len() {
                assert(c.subrange(i, i + l) =~= z.subrange(i, i + l));
                assert(occurs_at(c, bg, i));
            } else {
                let q = if t.len() > 0 {
                    if i >= c.len() {
                        i
                    } else {
                        c.len() as int
                    }
                } else {
                    c.len() - 1
                };
                assert(z[q] == '\n');
                assert(z.subrange(i, i + l)[q - i] == z[q]);
                assert(bg[q - i] != '\n');
            }
        }
    }
}

/// Writing the managed block into a file that already holds one, or that
/// holds no begin sentinel at all, makes that block the file's managed
/// block; writing it again then changes nothing, so re-running init leaves
/// an agent instruction file as the first run left it.
pub proof fn lemma_block_write_idempotent(current: Seq<char>, block: Seq<char>)
    requires
        block_well_formed(block),
        managed_span(current) is Some || find(current, MDD_BLOCK_BEGIN@) is None,
    ensures
        managed_span(with_block(current, block)) matches Some((b, e)) && with_block(current, block).subrange(b, e)
            == block,
        with_block(with_block(current, block), block) == with_block(current, block),
{
    lemma_sentinels();
    lemma_newlines();
    let bg = MDD_BLOCK_BEGIN@;
    let l = bg.len() as int;
    match managed_span(current) {
        Some((b, e)) => {
            lemma_find_from_range(current, bg, 0);
            lemma_find_from_range(current, MDD_BLOCK_END@, b);
            let x = current.take(b);
            let y = current.skip(e);
            assert(block.take(l) == bg);
            assert forall|i: int| 0 <= i < x.len() implies !#[trigger] occurs_at(x + block, bg, i) by {
                if occurs_at(x + block, bg, i) {
                    assert forall|j: int| 0 <= j < l implies #[trigger] (x + block).subrange(i, i + l)[j] == current.subrange(i, i + l)[j] by {
                        if i + j >= b {
                            assert((x + block)[i + j] == block[i + j - b]);
                            assert(block[i + j - b] == block.take(l)[i + j - b]);
                            assert(current[i + j] == current.subrange(b, b + l)[i + j - b]);
                        }
                    }
                    assert((x + block).subrange(i, i + l) =~= current.subrange(i, i + l));
                    assert(occurs_at(current, bg, i));
                }
            }
            lemma_span_of_placed(x, block, y);
            let r = x + block + y;
            assert(r.take(b) =~= x);
            assert(r.skip(b + block.len()) =~= y);
            assert(r.subrange(b, b + block.len()) =~= block);
        },
        None => {
            let t = lemma_appended(current, block);
            let r = current + t + block;
            let n = (current + t).len() as int;
            assert(r.take(n) =~= current + t);
            assert(r.skip(n + block.len()) =~= Seq::<char>::empty());
            assert(r.subrange(n, n + block.len()) =~= block);
            assert(r.take(n) + block + r.skip(n + block.len()) =~= r);
        },
    }
}

/// A block written into a file without a begin sentinel is appended after
/// newlines, and is then the file's managed block.
proof fn lemma_appended(current: Seq<char>, block: Seq<char>) -> (t: Seq<char>)
    requires
        block_well_formed(block),
        find(current, MDD_BLOCK_BEGIN@) is None,
    ensures
        with_block(current, block) == current + t + block,
        forall|j: int| 0 <= j < t.len() ==> #[trigger] t[j] == '\n',
        managed_span(with_block(current, block)) == Some(((current + t).len() as int, (current.len() + t.len() + block.len()) as int)),
{
    lemma_sentinels();
    lemma_newlines();
    let x = if current.len() == 0 {
        current
    } else if ends_with(current, "\n\n"@) {
        current
    } else if ends_with(current, "\n"@) {
        current + "\n"@
    } else {
        current + "\n\n"@
    };
    let t = x.skip(current.len() as int);
    assert(x =~= current + t);
    if current.len() > 0 && ends_with(current, "\n\n"@) {
        assert(current.last() == current.skip(current.len() - 2)[1]);
        assert(current.skip(current.len() - 2) == "\n\n"@);
    }
    assert(managed_span(current) is None);
    lemma_no_begin_before(current, t, block);
    assert(with_block(current, block) =~= x + block + Seq::<char>::empty());
    lemma_span_of_placed(x, block, Seq::<char>::empty());
    assert(x + block + Seq::<char>::empty() =~= current + t + block);
    t
}

/// Newlines appended to a text change neither how it trims at the end nor
/// whether it trims to nothing.
proof fn lemma_trim_newlines(c: Seq<char>, t: Seq<char>)
    requires
        forall|j: int| 0 <= j < t.len() ==> #[trigger] t[j] == '\n',
    ensures
        trim_end(c + t) == trim_end(c),
        trim(c + t).len() == 0 <==> trim(c).len() == 0,
{
    assert forall|j: int| 0 <= j < t.len() implies is_ws(#[trigger] t[j]) by {
        assert(t[j] == '\n');
    }
    lemma_ws_suffix_append(c, t);
    crate::text::lemma_ws_suffix_len_bound(c);
    assert(trim_end(c + t) =~= trim_end(c));
    lemma_trim_empty_iff(c);
    lemma_trim_empty_iff(c + t);
    if trim(c).len() == 0 {
        assert forall|k: int| 0 <= k < (c + t).len() implies is_ws(#[trigger] (c + t)[k]) by {
            if k >= c.len() {
                assert((c + t)[k] == t[k - c.len()]);
            } else {
                assert(is_ws(c[k]));
            }
        }
    } else if trim(c + t).len() == 0 {
        assert forall|k: int| 0 <= k < c.len() implies is_ws(#[trigger] c[k]) by {
            assert((c + t)[k] == c[k]);
        }
    }
}

/// Cleaning a file into which init wrote the managed block gives back what
/// the user had written, without its trailing whitespace and ending in one
/// newline, or deletes the file when the user had written nothing but
/// whitespace (a block edited since is left unless forced).
pub proof fn lemma_clean_after_write(current: Seq<char>, block: Seq<char>, force: bool, meta_sha: Option<Seq<char>>)
    requires
        block_well_formed(block),
        find(current, MDD_BLOCK_BEGIN@) is None,
        force || block_verified(block, meta_sha),
    ensures
        removal_spec(with_block(current, block), force, meta_sha) == Some(Some(
            if trim(current).len() == 0 {
                Seq::<char>::empty()
            } else {
                trim_end(current) + "\n"@
            },
        )),
{
    let t = lemma_appended(current, block);
    let r = current + t + block;
    let b = (current + t).len() as int;
    let e = (current.len() + t.len() + block.len()) as int;
    assert(r.subrange(b, e) =~= block);
    assert(remainder(r, b, e) =~= current + t);
    lemma_trim_newlines(current, t);
}

// ---------------------------------------------------------------------------
// The fate of each file

/// What happened to a file `mdd init` considered.
#[derive(Clone, Copy, PartialEq, Eq, Structural, Debug)]
pub enum InitOutcome {
    Created,
    Overwritten,
    Migrated,
    Skipped,
}

/// A regenerable file (docs, skills): created when missing; when it exists
/// the conflict handler decides, and a directory in its place is never
/// overwritten.
pub fn regenerable_outcome(exists: bool, is_dir: bool, choice: InitFileConflict) -> (r: InitOutcome)
    ensures
        r == (if !exists {
            InitOutcome::Created
        } else if choice == InitFileConflict::Skip || is_dir {
            InitOutcome::Skipped
        } else {
            InitOutcome::Overwritten
        }),
{
    if !exists {
        InitOutcome::Created
    } else {
        match choice {
            InitFileConflict::Skip => InitOutcome::Skipped,
            InitFileConflict::Overwrite => if is_dir {
                InitOutcome::Skipped
            } else {
                InitOutcome::Overwritten
            },
        }
    }
}

/// A file seeded once (the plan, the brief, the architecture templates):
/// created when missing, otherwise never touched.
pub fn seeded_outcome(exists: bool) -> (r: InitOutcome)
    ensures
        r == (if exists {
            InitOutcome::Skipped
        } else {
            InitOutcome::Created
        }),
{
    if exists {
        InitOutcome::Skipped
    } else {
        InitOutcome::Created
    }
}

/// A state file (config, trace, approvals): created when missing; an older
/// schema version that parses is migrated forward; an equal or newer one,
/// or one that does not parse, is left as it is.
pub fn state_outcome(exists: bool, on_disk_version: u32, parses: bool, current_version: u32) -> (r: InitOutcome)
    ensures
        r == (if !exists {
            InitOutcome::Created
        } else if on_disk_version >= current_version || !parses {
            InitOutcome::Skipped
        } else {
            InitOutcome::Migrated
        }),
{
    if !exists {
        InitOutcome::Created
    } else if on_disk_version >= current_version {
        InitOutcome::Skipped
    } else if !parses {
        InitOutcome::Skipped
    } else {
        InitOutcome::Migrated
    }
}

pub open spec fn generated_removal_spec(is_dir: bool, force: bool, content: Result<Seq<char>, Seq<char>>, expected: Seq<char>) -> Option<Seq<char>> {
    if is_dir {
        Some("expected a file created by mdd init"@)
    } else if force {
        None
    } else {
        match content {
            Ok(c) => if c == expected {
                None
            } else {
                Some("content differs from the generated mdd init template"@)
            },
            Err(e) => Some("could not verify generated content ("@ + e + "); use --force to remove"@),
        }
    }
}

/// Whether `mdd clean` removes a generated file that exists: the reason to
/// keep it, or `None` to remove it. Only an unmodified file (or any file,
/// when forced) goes; `content` is what reading it gave.
pub fn generated_file_removal(is_dir: bool, force: bool, content: &Result<String, String>, expected: &str) -> (r: Option<String>)
    ensures
        opt_view(r) == generated_removal_spec(
            is_dir,
            force,
            match content {
                Ok(c) => Ok(c@),
                Err(e) => Err(e@),
            },
            expected@,
        ),
{
    if is_dir {
        return Some(owned("expected a file created by mdd init"));
    }
    if force {
        return None;
    }
    match content {
        Ok(c) => if str_eq(c.as_str(), expected) {
            None
        } else {
            Some(owned("content differs from the generated mdd init template"))
        },
        Err(e) => Some(cat3("could not verify generated content (", e.as_str(), "); use --force to remove")),
    }
}

// ---------------------------------------------------------------------------
// The plans of init and clean

/// The state files init creates or migrates.
#[derive(Clone, Copy, PartialEq, Eq, Structural, Debug)]
pub enum StateKind {
    Config,
    Trace,
    Approvals,
}

/// One thing `mdd init` sees to.
pub enum InitStep {
    /// A directory, created when missing.
    Dir(String),
    /// A state file, created or forward-migrated (see `state_outcome`).
    State(String, StateKind),
    /// A regenerable file and its content (see `regenerable_outcome`).
    Regenerable(String, String),
    /// A file seeded once and its content (see `seeded_outcome`).
    Seeded(String, String),
    /// A managed block: the file, the block's kind and its body (see
    /// `render_managed_block` and `managed_block_update`).
    Block(String, String, String),
}

/// The view of an init step.
pub enum StepV {
    Dir(Seq<char>),
    State(Seq<char>, StateKind),
    Regenerable(Seq<char>, Seq<char>),
    Seeded(Seq<char>, Seq<char>),
    Block(Seq<char>, Seq<char>, Seq<char>),
}

pub open spec fn step_view(s: InitStep) -> StepV {
    match s {
        InitStep::Dir(p) => StepV::Dir(p@),
        InitStep::State(p, k) => StepV::State(p@, k),
        InitStep::Regenerable(p, c) => StepV::Regenerable(p@, c@),
        InitStep::Seeded(p, c) => StepV::Seeded(p@, c@),
        InitStep::Block(p, k, b) => StepV::Block(p@, k@, b@),
    }
}

pub open spec fn steps_view(v: Seq<InitStep>) -> Seq<StepV> {
    v.map_values(|s: InitStep| step_view(s))
}

/// The directories init creates.
pub open spec fn init_dirs() -> Seq<Seq<char>> {
    seq![
        ".mdd/models/current/use-cases"@,
        ".mdd/models/current/sequences"@,
        ".mdd/models/current/domain"@,
        ".mdd/models/current/components"@,
        ".mdd/models/current/mockups"@,
        ".mdd/models/current/states"@,
        ".mdd/models/objective/use-cases"@,
        ".mdd/models/objective/sequences"@,
        ".mdd/models/objective/domain"@,
        ".mdd/models/objective/components"@,
        ".mdd/models/objective/mockups"@,
        ".mdd/models/objective/states"@,
        ".mdd/constraints"@,
        ".mdd/rendered"@,
        ".mdd/tests/acceptance"@,
        ".mdd/tests/ui"@,
        ".mdd/docs"@,
        ".mdd/ralph"@,
        ".mdd/architecture"@,
        ".codex/skills"@,
    ]
}

fn init_dir(i: usize) -> (r: &'static str)
    requires
        i < 20,
    ensures
        r@ == init_dirs()[i as int],
{
    match i {
        0 => ".mdd/models/current/use-cases",
        1 => ".mdd/models/current/sequences",
        2 => ".mdd/models/current/domain",
        3 => ".mdd/models/current/components",
        4 => ".mdd/models/current/mockups",
        5 => ".mdd/models/current/states",
        6 => ".mdd/models/objective/use-cases",
        7 => ".mdd/models/objective/sequences",
        8 => ".mdd/models/objective/domain",
        9 => ".mdd/models/objective/components",
        10 => ".mdd/models/objective/mockups",
        11 => ".mdd/models/objective/states",
        12 => ".mdd/constraints",
        13 => ".mdd/rendered",
        14 => ".mdd/tests/acceptance",
        15 => ".mdd/tests/ui",
        16 => ".mdd/docs",
        17 => ".mdd/ralph",
        18 => ".mdd/architecture",
        _ => ".codex/skills",
    }
}

/// Where a skill is installed.
pub open spec fn skill_path(name: Seq<char>) -> Seq<char> {
    ".codex/skills/"@ + name + "/SKILL.md"@
}

/// The skill files init writes: one per workflow skill.
pub open spec fn skill_steps(skills: Seq<SkillV>) -> Seq<StepV> {
    skills.map_values(|s: SkillV| StepV::Regenerable(skill_path(s.0), skill_markdown_spec(s.0, s.1, s.2)))
}

/// What `mdd init` sees to, in order: the directories, the three state
/// files, the modelling guide, the plan, the agents' managed block, and
/// the skills.
pub open spec fn init_plan_spec(skills: Seq<SkillV>) -> Seq<StepV> {
    init_dirs().map_values(|d: Seq<char>| StepV::Dir(d)) + seq![
        StepV::State(CONFIG_FILE@, StateKind::Config),
        StepV::State(TRACE_FILE@, StateKind::Trace),
        StepV::State(APPROVALS_FILE@, StateKind::Approvals),
        StepV::Regenerable(".mdd/docs/uml-and-ocl-guide.md"@, UML_AND_OCL_GUIDE_DOC@),
        StepV::Seeded(".mdd/ralph/PLAN.md"@, RALPH_PLAN@),
        StepV::Block("AGENTS.md"@, "agents-entrypoint"@, AGENTS_ENTRYPOINT@),
    ] + skill_steps(skills)
}

impl crate::project::Project {
    /// The steps of `mdd init`, in order, each carried out as its kind
    /// says (see `InitStep`); the skills are those of `workflow_skills`.
    pub fn init(&self) -> (r: Vec<InitStep>)
        ensures
            steps_view(r@) == init_plan_spec(workflow_skills_spec()),
    {
        let mut r: Vec<InitStep> = Vec::new();
        let mut i: usize = 0;
        while i < 20
            invariant
                i <= 20,
                steps_view(r@) == init_dirs().take(i as int).map_values(|d: Seq<char>| StepV::Dir(d)),
            decreases 20 - i,
        {
            let ghost r0 = steps_view(r@);
            r.push(InitStep::Dir(owned(init_dir(i))));
            assert(steps_view(r@) =~= r0.push(StepV::Dir(init_dirs()[i as int])));
            assert(init_dirs().take(i + 1).map_values(|d: Seq<char>| StepV::Dir(d)) =~= init_dirs().take(
                i as int,
            ).map_values(|d: Seq<char>| StepV::Dir(d)).push(StepV::Dir(init_dirs()[i as int])));
            i = i + 1;
        }
        assert(init_dirs().take(20) =~= init_dirs());
        let ghost r1 = steps_view(r@);
        r.push(InitStep::State(owned(CONFIG_FILE), StateKind::Config));
        r.push(InitStep::State(owned(TRACE_FILE), StateKind::Trace));
        r.push(InitStep::State(owned(APPROVALS_FILE), StateKind::Approvals));
        r.push(InitStep::Regenerable(owned(".mdd/docs/uml-and-ocl-guide.md"), owned(UML_AND_OCL_GUIDE_DOC)));
        r.push(InitStep::Seeded(owned(".mdd/ralph/PLAN.md"), owned(RALPH_PLAN)));
        r.push(InitStep::Block(owned("AGENTS.md"), owned("agents-entrypoint"), owned(AGENTS_ENTRYPOINT)));
        let ghost fixed = seq![
            StepV::State(CONFIG_FILE@, StateKind::Config),
            StepV::State(TRACE_FILE@, StateKind::Trace),
            StepV::State(APPROVALS_FILE@, StateKind::Approvals),
            StepV::Regenerable(".mdd/docs/uml-and-ocl-guide.md"@, UML_AND_OCL_GUIDE_DOC@),
            StepV::Seeded(".mdd/ralph/PLAN.md"@, RALPH_PLAN@),
            StepV::Block("AGENTS.md"@, "agents-entrypoint"@, AGENTS_ENTRYPOINT@),
        ];
        assert(steps_view(r@) =~= r1 + fixed);
        let skills = workflow_skills();
        let ghost sv = skills@.map_values(|s: SkillTemplate| skill_view(s));
        let ghost r2 = steps_view(r@);
        let mut k: usize = 0;
        assert(r2 + skill_steps(sv.take(0)) =~= r2);
        while k < skills.len()
            invariant
                k <= skills.len(),
                sv == skills@.map_values(|s: SkillTemplate| skill_view(s)),
                steps_view(r@) == r2 + skill_steps(sv.take(k as int)),
            decreases skills.len() - k,
        {
            let sk = &skills[k];
            let path = cat3(".codex/skills/", sk.name, "/SKILL.md");
            let content = skill_markdown(sk);
            let ghost r3 = steps_view(r@);
            r.push(InitStep::Regenerable(path, content));
            proof {
                let x = StepV::Regenerable(skill_path(sk.name@), skill_markdown_spec(sk.name@, sk.description@, sk.body@));
                assert(steps_view(r@) =~= r3.push(x));
                assert(sv[k as int] == skill_view(*sk));
                assert(skill_steps(sv.take(k + 1)) =~= skill_steps(sv.take(k as int)).push(x));
            }
            k = k + 1;
        }
        assert(sv.take(skills.len() as int) =~= sv);
        assert(steps_view(r@) == init_plan_spec(sv));
        r
    }
}

/// Record what init did with a file.
pub fn record_init(report: &mut InitReport, rel: &str, outcome: InitOutcome)
    ensures
        final(report).root == old(report).root,
        crate::text::strs(final(report).created@) == crate::text::strs(old(report).created@) + (if outcome
            == InitOutcome::Created {
            seq![rel@]
        } else {
            seq![]
        }),
        crate::text::strs(final(report).overwritten@) == crate::text::strs(old(report).overwritten@) + (if outcome
            == InitOutcome::Overwritten {
            seq![rel@]
        } else {
            seq![]
        }),
        crate::text::strs(final(report).migrated@) == crate::text::strs(old(report).migrated@) + (if outcome
            == InitOutcome::Migrated {
            seq![rel@]
        } else {
            seq![]
        }),
        crate::text::strs(final(report).skipped@) == crate::text::strs(old(report).skipped@) + (if outcome
            == InitOutcome::Skipped {
            seq![rel@]
        } else {
            seq![]
        }),
{
    let ghost c0 = crate::text::strs(report.created@);
    let ghost o0 = crate::text::strs(report.overwritten@);
    let ghost m0 = crate::text::strs(report.migrated@);
    let ghost s0 = crate::text::strs(report.skipped@);
    match outcome {
        InitOutcome::Created => report.created.push(owned(rel)),
        InitOutcome::Overwritten => report.overwritten.push(owned(rel)),
        InitOutcome::Migrated => report.migrated.push(owned(rel)),
        InitOutcome::Skipped => report.skipped.push(owned(rel)),
    }
    assert(crate::text::strs(report.created@) =~= c0 + (if outcome == InitOutcome::Created {
        seq![rel@]
    } else {
        seq![]
    }));
    assert(crate::text::strs(report.overwritten@) =~= o0 + (if outcome == InitOutcome::Overwritten {
        seq![rel@]
    } else {
        seq![]
    }));
    assert(crate::text::strs(report.migrated@) =~= m0 + (if outcome == InitOutcome::Migrated {
        seq![rel@]
    } else {
        seq![]
    }));
    assert(crate::text::strs(report.skipped@) =~= s0 + (if outcome == InitOutcome::Skipped {
        seq![rel@]
    } else {
        seq![]
    }));
}

/// One thing `mdd clean` sees to.
pub enum CleanStep {
    /// A directory tree init created, removed whole.
    RemoveTree(String),
    /// A generated file and the content init wrote (see
    /// `generated_file_removal`).
    RemoveGenerated(String, String),
    /// A directory, removed when empty.
    RemoveEmptyDir(String),
    /// A file holding a managed block (see `managed_block_removal`).
    RemoveBlock(String),
}

pub enum CleanV {
    RemoveTree(Seq<char>),
    RemoveGenerated(Seq<char>, Seq<char>),
    RemoveEmptyDir(Seq<char>),
    RemoveBlock(Seq<char>),
}

pub open spec fn clean_view(s: CleanStep) -> CleanV {
    match s {
        CleanStep::RemoveTree(p) => CleanV::RemoveTree(p@),
        CleanStep::RemoveGenerated(p, c) => CleanV::RemoveGenerated(p@, c@),
        CleanStep::RemoveEmptyDir(p) => CleanV::RemoveEmptyDir(p@),
        CleanStep::RemoveBlock(p) => CleanV::RemoveBlock(p@),
    }
}

pub open spec fn cleans_view(v: Seq<CleanStep>) -> Seq<CleanV> {
    v.map_values(|s: CleanStep| clean_view(s))
}

pub open spec fn skill_cleanup(skills: Seq<SkillV>) -> Seq<CleanV>
    decreases skills.len(),
{
    if skills.len() == 0 {
        seq![]
    } else {
        let s = skills.last();
        skill_cleanup(skills.drop_last()) + seq![
            CleanV::RemoveGenerated(skill_path(s.0), skill_markdown_spec(s.0, s.1, s.2)),
            CleanV::RemoveEmptyDir(".codex/skills/"@ + s.0),
        ]
    }
}

/// What `mdd clean` sees to, in order: the `.mdd` tree, each skill file
/// (only as init wrote it, unless forced) and its directory, the skills
/// directories when empty, and the agents' managed block.
pub open spec fn clean_plan_spec(skills: Seq<SkillV>) -> Seq<CleanV> {
    seq![CleanV::RemoveTree(".mdd"@)] + skill_cleanup(skills) + seq![
        CleanV::RemoveEmptyDir(".codex/skills"@),
        CleanV::RemoveEmptyDir(".codex"@),
        CleanV::RemoveBlock("AGENTS.md"@),
    ]
}

impl crate::project::Project {
    /// The steps of `mdd clean`, in order.
    pub fn clean(&self) -> (r: Vec<CleanStep>)
        ensures
            cleans_view(r@) == clean_plan_spec(workflow_skills_spec()),
    {
        let mut r: Vec<CleanStep> = Vec::new();
        r.push(CleanStep::RemoveTree(owned(".mdd")));
        let skills = workflow_skills();
        let ghost sv = skills@.map_values(|s: SkillTemplate| skill_view(s));
        let ghost r1 = cleans_view(r@);
        assert(r1 =~= seq![CleanV::RemoveTree(".mdd"@)]);
        let mut k: usize = 0;
        assert(r1 + skill_cleanup(sv.take(0)) =~= r1);
        while k < skills.len()
            invariant
                k <= skills.len(),
                sv == skills@.map_values(|s: SkillTemplate| skill_view(s)),
                r1 == seq![CleanV::RemoveTree(".mdd"@)],
                cleans_view(r@) == r1 + skill_cleanup(sv.take(k as int)),
            decreases skills.len() - k,
        {
            let sk = &skills[k];
            let ghost r3 = cleans_view(r@);
            r.push(CleanStep::RemoveGenerated(cat3(".codex/skills/", sk.name, "/SKILL.md"), skill_markdown(sk)));
            r.push(CleanStep::RemoveEmptyDir(cat(".codex/skills/", sk.name)));
            proof {
                let xs = seq![
                    CleanV::RemoveGenerated(skill_path(sk.name@), skill_markdown_spec(sk.name@, sk.description@, sk.body@)),
                    CleanV::RemoveEmptyDir(".codex/skills/"@ + sk.name@),
                ];
                assert(cleans_view(r@) =~= r3 + xs);
                assert(sv[k as int] == skill_view(*sk));
                assert(sv.take(k + 1).drop_last() =~= sv.take(k as int));
                assert(skill_cleanup(sv.take(k + 1)) =~= skill_cleanup(sv.take(k as int)) + xs);
            }
            k = k + 1;
        }
        assert(sv.take(skills.len() as int) =~= sv);
        let ghost r2 = cleans_view(r@);
        r.push(CleanStep::RemoveEmptyDir(owned(".codex/skills")));
        r.push(CleanStep::RemoveEmptyDir(owned(".codex")));
        r.push(CleanStep::RemoveBlock(owned("AGENTS.md")));
        assert(cleans_view(r@) =~= r2 + seq![
            CleanV::RemoveEmptyDir(".codex/skills"@),
            CleanV::RemoveEmptyDir(".codex"@),
            CleanV::RemoveBlock("AGENTS.md"@),
        ]);
        assert(cleans_view(r@) == clean_plan_spec(sv));
        r
    }
}

/// Whether `mdd clean` removes a tree it found: the reason to keep it when
/// a file stands where init created a directory.
pub fn tree_removal(is_dir: bool) -> (r: Option<String>)
    ensures
        opt_view(r) == (if is_dir {
            None
        } else {
            Some("expected a directory created by mdd init"@)
        }),
{
    if is_dir {
        None
    } else {
        Some(owned("expected a directory created by mdd init"))
    }
}

} // verus!
