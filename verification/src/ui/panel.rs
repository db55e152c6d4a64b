//! The command panel: each command with its output as a block, and which rows of
//! the blocks are shown when there is not room for all.
use vstd::prelude::*;
use vstd::string::*;
use crate::cmd::{entries, CommandEntry, CommandStatus, EntryModel};
use crate::help::{push_rows, rows_of};
use crate::num::{max_len, min_len};
use crate::text::{chars_of, push_chars, push_repeated, push_text, repeated, slice_chars, texts};
use crate::ui::window::put;
use crate::ui::{draw_scrollbar, scrollbar_drawn};

verus! {

// ── Lines ────────────────────────────────────────────────────────────────────

/// `width` characters of `line` from `from` on, as far as there are so many.
pub open spec fn sliced(line: Seq<char>, from: int, width: int) -> Seq<char> {
    let a = if from < line.len() {
        from
    } else {
        line.len() as int
    };
    let b = if a + width < line.len() {
        a + width
    } else {
        line.len() as int
    };
    line.subrange(a, b)
}

pub fn slice_line(line: &str, scroll_x: usize, width: usize) -> (v: Vec<char>)
    ensures
        v@ == sliced(line@, scroll_x as int, width as int),
{
    let c = chars_of(line);
    let n: usize = c.len();
    let a: usize = min_len(scroll_x, n);
    let b: usize = if width < n - a {
        a + width
    } else {
        n
    };
    slice_chars(&c, a, b)
}

/// A text with blanks behind it up to `n` characters.
pub open spec fn put_padded(t: Seq<char>, s: Seq<char>, n: int) -> Seq<char> {
    t + s + repeated(' ', n - s.len())
}

pub fn push_padded(out: &mut String, v: &[char], n: usize)
    ensures
        final(out)@ == put_padded(old(out)@, v@, n as int),
{
    push_chars(out, v);
    let pad: usize = if v.len() < n {
        n - v.len()
    } else {
        0
    };
    push_repeated(out, ' ', pad);
    assert(repeated(' ', pad as int) =~= repeated(' ', n - v@.len()));
}

/// The line of output `i` of a command: the last one closes the block, and says
/// where the command still runs.
pub open spec fn output_line(e: EntryModel, i: int) -> Seq<char> {
    let last = i == e.output_lines.len() - 1;
    "  │ "@ + (if last {
        "└─ "@
    } else {
        "├─ "@
    }) + e.output_lines[i] + (if last && e.status != CommandStatus::Complete {
        " (running)"@
    } else {
        ""@
    })
}

/// The line of a command itself.
pub open spec fn command_line(e: EntryModel) -> Seq<char> {
    "  ├─┬ "@ + e.command
}

fn command_output_line(e: &CommandEntry, i: usize) -> (s: String)
    requires
        i < e.output_lines@.len(),
    ensures
        s@ == output_line(e@, i as int),
{
    let last = i == e.output_lines.len() - 1;
    let mut s = "  │ ".to_owned();
    s.append(
        if last {
            "└─ "
        } else {
            "├─ "
        },
    );
    s.append(e.output_lines[i].as_str());
    let running = match e.status {
        CommandStatus::Complete => false,
        CommandStatus::Running => true,
    };
    s.append(
        if last && running {
            " (running)"
        } else {
            ""
        },
    );
    s
}

fn command_head_line(e: &CommandEntry) -> (s: String)
    ensures
        s@ == command_line(e@),
{
    let mut s = "  ├─┬ ".to_owned();
    s.append(e.command.as_str());
    s
}

/// The directory in which the last of the commands that has one was run.
pub open spec fn last_cwd(c: Seq<EntryModel>) -> Option<Seq<char>>
    decreases c.len(),
{
    if c.len() == 0 {
        None
    } else if c.last().cwd.len() > 0 {
        Some(c.last().cwd)
    } else {
        last_cwd(c.drop_last())
    }
}

/// Whether a command is run in another directory than the one before it.
pub open spec fn enters_cwd(before: Seq<EntryModel>, e: EntryModel) -> bool {
    e.cwd.len() > 0 && last_cwd(before) != Some(e.cwd)
}

pub open spec fn max_nat(a: nat, b: nat) -> nat {
    if a <= b {
        b
    } else {
        a
    }
}

/// The longest of the first `n` lines of output.
pub open spec fn output_width(e: EntryModel, n: int) -> nat
    decreases n,
{
    if n <= 0 {
        0
    } else {
        max_nat(output_width(e, n - 1), output_line(e, n - 1).len())
    }
}

/// How wide the path and the commands are.
pub open spec fn content_width(path: Seq<char>, c: Seq<EntryModel>) -> nat
    decreases c.len(),
{
    if c.len() == 0 {
        path.len() + 3
    } else {
        let e = c.last();
        let front = content_width(path, c.drop_last());
        let front = if enters_cwd(c.drop_last(), e) {
            max_nat(front, e.cwd.len())
        } else {
            front
        };
        max_nat(
            max_nat(front, command_line(e).len()),
            output_width(e, e.output_lines.len() as int),
        )
    }
}

/// The content is at least as wide as the path with its frame.
pub(crate) proof fn lemma_content_width(path: Seq<char>, c: Seq<EntryModel>)
    ensures
        content_width(path, c) >= path.len() + 3,
    decreases c.len(),
{
    if c.len() > 0 {
        lemma_content_width(path, c.drop_last());
    }
}

/// Whether a text is the one that is optionally there.
fn is_cwd(last: &Option<Vec<char>>, cwd: &[char]) -> (r: bool)
    ensures
        r == match *last {
            Some(v) => v@ == cwd@,
            None => false,
        },
{
    match last {
        Some(v) => crate::text::same_chars(v, cwd),
        None => false,
    }
}

fn longest_output(e: &CommandEntry) -> (w: usize)
    ensures
        w == output_width(e@, e@.output_lines.len() as int),
{
    let mut w: usize = 0;
    let mut i: usize = 0;
    while i < e.output_lines.len()
        invariant
            i <= e.output_lines@.len(),
            w == output_width(e@, i as int),
        decreases e.output_lines@.len() - i,
    {
        let line = chars_of(command_output_line(e, i).as_str());
        w = max_len(w, line.len());
        i = i + 1;
    }
    w
}

pub open spec fn cwd_view(v: Option<Vec<char>>) -> Option<Seq<char>> {
    match v {
        Some(c) => Some(c@),
        None => None,
    }
}

/// How wide the path and the commands are.
pub fn terminal_content_width(path: &str, commands: &[CommandEntry]) -> (w: usize)
    ensures
        w == content_width(path@, entries(commands@)),
{
    let ghost all = entries(commands@);
    let mut label = chars_of(path);
    label.push(' ');
    label.push(' ');
    label.push(' ');
    let mut w: usize = label.len();
    let mut last: Option<Vec<char>> = None;
    let mut i: usize = 0;
    assert(all.take(0) =~= Seq::empty());
    while i < commands.len()
        invariant
            i <= commands@.len(),
            all == entries(commands@),
            w == content_width(path@, all.take(i as int)),
            cwd_view(last) == last_cwd(all.take(i as int)),
        decreases commands@.len() - i,
    {
        assert(all.take(i + 1).drop_last() =~= all.take(i as int));
        assert(all.take(i + 1).last() == commands@[i as int]@);
        let e = &commands[i];
        let cwd = chars_of(e.cwd.as_str());
        if cwd.len() > 0 && !is_cwd(&last, &cwd) {
            w = max_len(w, cwd.len());
        }
        let head = chars_of(command_head_line(e).as_str());
        w = max_len(max_len(w, head.len()), longest_output(e));
        if cwd.len() > 0 {
            last = Some(cwd);
        }
        i = i + 1;
    }
    assert(all.take(i as int) =~= all);
    w
}

// ── Blocks ───────────────────────────────────────────────────────────────────

/// One command as rows: its directory where that is new, its line, its output.
pub struct CommandBlock {
    pub header: Vec<String>,
    /// The rows that stand for hidden output.
    pub elision: Vec<String>,
    /// The output, oldest first; the last one is the result.
    pub outputs: Vec<Vec<String>>,
}

#[verifier::ext_equal]
pub struct BlockModel {
    pub header: Seq<Seq<char>>,
    pub elision: Seq<Seq<char>>,
    pub outputs: Seq<Seq<Seq<char>>>,
}

/// The texts of a list of lists.
pub open spec fn text_lists(v: Seq<Vec<String>>) -> Seq<Seq<Seq<char>>> {
    Seq::new(v.len(), |i: int| texts(v[i]@))
}

impl View for CommandBlock {
    type V = BlockModel;

    open spec fn view(&self) -> BlockModel {
        BlockModel {
            header: texts(self.header@),
            elision: texts(self.elision@),
            outputs: text_lists(self.outputs@),
        }
    }
}

pub open spec fn block_models(v: Seq<CommandBlock>) -> Seq<BlockModel> {
    Seq::new(v.len(), |i: int| v[i]@)
}

/// One list after another.
pub open spec fn joined(l: Seq<Seq<Seq<char>>>) -> Seq<Seq<char>>
    decreases l.len(),
{
    if l.len() == 0 {
        Seq::empty()
    } else {
        joined(l.drop_last()) + l.last()
    }
}

impl BlockModel {
    /// All rows of the block.
    pub open spec fn rows(self) -> Seq<Seq<char>> {
        self.header + joined(self.outputs)
    }

    /// The rows of the output before the result.
    pub open spec fn internal(self) -> Seq<Seq<char>> {
        joined(self.outputs.drop_last())
    }

    /// The first line of the header.
    pub open spec fn title(self) -> Seq<char> {
        if self.header.len() > 0 {
            self.header[0]
        } else {
            Seq::empty()
        }
    }
}

/// All rows of the blocks.
pub open spec fn all_rows(b: Seq<BlockModel>) -> Seq<Seq<char>>
    decreases b.len(),
{
    if b.len() == 0 {
        Seq::empty()
    } else {
        all_rows(b.drop_last()) + b.last().rows()
    }
}

/// Each row of the blocks with the first header line of its block.
pub open spec fn flat_rows(b: Seq<BlockModel>) -> Seq<(Seq<char>, Seq<char>)>
    decreases b.len(),
{
    if b.len() == 0 {
        Seq::empty()
    } else {
        let m = b.last();
        flat_rows(b.drop_last()) + Seq::new(m.rows().len(), |i: int| (m.rows()[i], m.title()))
    }
}

/// The block of a command behind the commands `before`, `width` characters wide.
pub open spec fn block_of(before: Seq<EntryModel>, e: EntryModel, width: int) -> BlockModel {
    BlockModel {
        header: (if enters_cwd(before, e) {
            rows_of(e.cwd, width)
        } else {
            Seq::empty()
        }) + rows_of(command_line(e), width),
        elision: rows_of("  │ ├─ ..."@, width),
        outputs: Seq::new(e.output_lines.len(), |i: int| rows_of(output_line(e, i), width)),
    }
}

/// The blocks of the commands.
pub open spec fn blocks_of(c: Seq<EntryModel>, width: int) -> Seq<BlockModel>
    decreases c.len(),
{
    if c.len() == 0 {
        Seq::empty()
    } else {
        blocks_of(c.drop_last(), width).push(block_of(c.drop_last(), c.last(), width))
    }
}

fn append_texts(out: &mut Vec<String>, more: &[String], from: usize, to: usize)
    requires
        from <= to <= more@.len(),
    ensures
        texts(final(out)@) == texts(old(out)@) + texts(more@).subrange(from as int, to as int),
{
    let ghost all = texts(more@);
    let mut i: usize = from;
    assert(texts(out@) =~= texts(old(out)@) + all.subrange(from as int, i as int));
    while i < to
        invariant
            from <= i <= to <= more@.len(),
            all == texts(more@),
            texts(out@) == texts(old(out)@) + all.subrange(from as int, i as int),
        decreases to - i,
    {
        push_text(out, more[i].clone());
        i = i + 1;
        assert(texts(out@) =~= texts(old(out)@) + all.subrange(from as int, i as int));
    }
}

fn append_all(out: &mut Vec<String>, more: &[String])
    ensures
        texts(final(out)@) == texts(old(out)@) + texts(more@),
{
    append_texts(out, more, 0, more.len());
    assert(texts(more@).subrange(0, more@.len() as int) =~= texts(more@));
}

/// The rows of the first `n` lists.
fn join_first(lists: &[Vec<String>], n: usize) -> (v: Vec<String>)
    requires
        n <= lists@.len(),
    ensures
        texts(v@) == joined(text_lists(lists@).take(n as int)),
{
    let ghost all = text_lists(lists@);
    let mut v: Vec<String> = Vec::new();
    let mut i: usize = 0;
    assert(all.take(0) =~= Seq::empty());
    assert(texts(v@) =~= Seq::empty());
    while i < n
        invariant
            i <= n <= lists@.len(),
            all == text_lists(lists@),
            texts(v@) == joined(all.take(i as int)),
        decreases n - i,
    {
        assert(all.take(i + 1).drop_last() =~= all.take(i as int));
        assert(all.take(i + 1).last() == texts(lists@[i as int]@));
        append_all(&mut v, &lists[i]);
        i = i + 1;
    }
    v
}

impl CommandBlock {
    /// All rows of the block.
    fn all(&self) -> (v: Vec<String>)
        ensures
            texts(v@) == self@.rows(),
    {
        let mut v: Vec<String> = Vec::new();
        append_all(&mut v, &self.header);
        let out = join_first(&self.outputs, self.outputs.len());
        assert(self@.outputs.take(self.outputs@.len() as int) =~= self@.outputs);
        append_all(&mut v, &out);
        assert(texts(v@) =~= self@.rows());
        v
    }

    fn copy(&self) -> (b: CommandBlock)
        ensures
            b@ == self@,
    {
        let mut outputs: Vec<Vec<String>> = Vec::new();
        let mut i: usize = 0;
        while i < self.outputs.len()
            invariant
                i <= self.outputs@.len(),
                text_lists(outputs@) == self@.outputs.take(i as int),
            decreases self.outputs@.len() - i,
        {
            let ghost before = outputs@;
            outputs.push(crate::text::clone_texts(&self.outputs[i]));
            assert(text_lists(outputs@) =~= text_lists(before).push(self@.outputs[i as int]));
            assert(self@.outputs.take(i + 1) =~= self@.outputs.take(i as int).push(
                self@.outputs[i as int],
            ));
            i = i + 1;
        }
        let b = CommandBlock {
            header: crate::text::clone_texts(&self.header),
            elision: crate::text::clone_texts(&self.elision),
            outputs,
        };
        assert(b@ =~= self@);
        b
    }
}

/// How many rows a block has.
pub fn block_rows(b: &CommandBlock) -> (n: usize)
    ensures
        n == b@.rows().len(),
{
    b.all().len()
}

fn every_row(blocks: &[CommandBlock]) -> (v: Vec<String>)
    ensures
        texts(v@) == all_rows(block_models(blocks@)),
{
    let ghost all = block_models(blocks@);
    let mut v: Vec<String> = Vec::new();
    let mut i: usize = 0;
    assert(all.take(0) =~= Seq::empty());
    assert(texts(v@) =~= Seq::empty());
    while i < blocks.len()
        invariant
            i <= blocks@.len(),
            all == block_models(blocks@),
            texts(v@) == all_rows(all.take(i as int)),
        decreases blocks@.len() - i,
    {
        assert(all.take(i + 1).drop_last() =~= all.take(i as int));
        assert(all.take(i + 1).last() == blocks@[i as int]@);
        let more = blocks[i].all();
        append_all(&mut v, &more);
        i = i + 1;
    }
    assert(all.take(i as int) =~= all);
    v
}

/// How many rows the blocks have.
pub fn total_rows(blocks: &[CommandBlock]) -> (n: usize)
    ensures
        n == all_rows(block_models(blocks@)).len(),
{
    every_row(blocks).len()
}

fn wrap_line(line: &str, width: usize) -> (v: Vec<String>)
    requires
        width >= 1,
    ensures
        texts(v@) == rows_of(line@, width as int),
{
    let mut v: Vec<String> = Vec::new();
    push_rows(&mut v, line, width);
    assert(texts(v@) =~= rows_of(line@, width as int));
    v
}

fn build_outputs(e: &CommandEntry, width: usize) -> (v: Vec<Vec<String>>)
    requires
        width >= 1,
    ensures
        text_lists(v@) == Seq::new(
            e@.output_lines.len(),
            |i: int| rows_of(output_line(e@, i), width as int),
        ),
{
    let mut v: Vec<Vec<String>> = Vec::new();
    while v.len() < e.output_lines.len()
        invariant
            width >= 1,
            v@.len() <= e.output_lines@.len(),
            forall|i: int|
                0 <= i < v@.len() ==> texts(#[trigger] v@[i]@) == rows_of(
                    output_line(e@, i),
                    width as int,
                ),
        decreases e.output_lines@.len() - v@.len(),
    {
        let i: usize = v.len();
        let rows = wrap_line(command_output_line(e, i).as_str(), width);
        v.push(rows);
    }
    assert(text_lists(v@) =~= Seq::new(
        e@.output_lines.len(),
        |i: int| rows_of(output_line(e@, i), width as int),
    ));
    v
}

/// The blocks of the commands, `width` characters wide.
pub fn build_blocks(commands: &[CommandEntry], width: usize) -> (v: Vec<CommandBlock>)
    requires
        width >= 1,
    ensures
        block_models(v@) == blocks_of(entries(commands@), width as int),
{
    let ghost all = entries(commands@);
    let mut v: Vec<CommandBlock> = Vec::new();
    let mut last: Option<Vec<char>> = None;
    let mut i: usize = 0;
    assert(all.take(0) =~= Seq::empty());
    assert(block_models(v@) =~= Seq::empty());
    while i < commands.len()
        invariant
            i <= commands@.len(),
            width >= 1,
            all == entries(commands@),
            block_models(v@) == blocks_of(all.take(i as int), width as int),
            cwd_view(last) == last_cwd(all.take(i as int)),
        decreases commands@.len() - i,
    {
        let ghost front = all.take(i as int);
        assert(all.take(i + 1).drop_last() =~= front);
        assert(all.take(i + 1).last() == commands@[i as int]@);
        let e = &commands[i];
        let cwd = chars_of(e.cwd.as_str());
        let mut header: Vec<String> = Vec::new();
        assert(texts(header@) =~= Seq::empty());
        if cwd.len() > 0 && !is_cwd(&last, &cwd) {
            push_rows(&mut header, e.cwd.as_str(), width);
        }
        push_rows(&mut header, command_head_line(e).as_str(), width);
        let b = CommandBlock {
            header,
            elision: wrap_line("  │ ├─ ...", width),
            outputs: build_outputs(e, width),
        };
        assert(b@ =~= block_of(front, e@, width as int));
        let ghost before = v@;
        v.push(b);
        assert(block_models(v@) =~= block_models(before).push(b@));
        if cwd.len() > 0 {
            last = Some(cwd);
        }
        i = i + 1;
    }
    assert(all.take(i as int) =~= all);
    v
}

// ── Clipping ─────────────────────────────────────────────────────────────────

/// Each row as a list of its own.
pub open spec fn single_rows(r: Seq<Seq<char>>) -> Seq<Seq<Seq<char>>> {
    Seq::new(r.len(), |i: int| seq![r[i]])
}

/// `keep` rows of a block: the header comes first, then the result, then the
/// oldest of the other output, with an elision for what is hidden.
pub open spec fn clipped_block(b: BlockModel, keep: int) -> BlockModel {
    let h = if b.header.len() < keep {
        b.header.len() as int
    } else {
        keep
    };
    let header = b.header.take(h);
    let budget = keep - h;
    if keep >= b.rows().len() {
        b
    } else if budget == 0 || b.outputs.len() == 0 || budget < b.outputs.last().len() {
        BlockModel { header, outputs: Seq::empty(), ..b }
    } else {
        let slots = budget - b.outputs.last().len();
        let internal = b.internal();
        let elide = internal.len() > slots && slots > 0;
        let show = if elide {
            slots - 1
        } else if slots < internal.len() {
            slots
        } else {
            internal.len() as int
        };
        let front = single_rows(internal.take(show));
        let front = if elide {
            front.push(b.elision)
        } else {
            front
        };
        BlockModel { header, outputs: front.push(b.outputs.last()), ..b }
    }
}

/// Keeps `keep` rows of a block; nothing where that is none.
pub fn clip_block(block: &CommandBlock, keep: usize) -> (r: Option<CommandBlock>)
    ensures
        match r {
            Some(c) => keep > 0 && c@ == clipped_block(block@, keep as int),
            None => keep == 0,
        },
{
    if keep == 0 {
        return None;
    }
    if keep >= block_rows(block) {
        return Some(block.copy());
    }
    let h: usize = min_len(block.header.len(), keep);
    let mut header: Vec<String> = Vec::new();
    append_texts(&mut header, &block.header, 0, h);
    assert(texts(header@) =~= block@.header.take(h as int));
    let elision = crate::text::clone_texts(&block.elision);
    let budget: usize = keep - h;
    let n: usize = block.outputs.len();
    let mut outputs: Vec<Vec<String>> = Vec::new();
    assert(text_lists(outputs@) =~= Seq::empty());
    if budget > 0 && n > 0 && budget >= block.outputs[n - 1].len() {
        assert(block@.outputs.take(n - 1) =~= block@.outputs.drop_last());
        let internal = join_first(&block.outputs, n - 1);
        let slots: usize = budget - block.outputs[n - 1].len();
        let elide = internal.len() > slots && slots > 0;
        let show: usize = if elide {
            slots - 1
        } else {
            min_len(slots, internal.len())
        };
        let mut i: usize = 0;
        while i < show
            invariant
                i <= show <= internal@.len(),
                text_lists(outputs@) == single_rows(texts(internal@).take(i as int)),
            decreases show - i,
        {
            let mut one: Vec<String> = Vec::new();
            push_text(&mut one, internal[i].clone());
            assert(texts(one@) =~= seq![internal@[i as int]@]);
            let ghost before = outputs@;
            let ghost r = texts(internal@);
            outputs.push(one);
            assert(text_lists(outputs@) =~= text_lists(before).push(seq![r[i as int]]));
            assert(single_rows(r.take(i + 1)) =~= single_rows(r.take(i as int)).push(
                seq![r[i as int]],
            ));
            i = i + 1;
        }
        let ghost front = text_lists(outputs@);
        if elide {
            outputs.push(crate::text::clone_texts(&block.elision));
            assert(text_lists(outputs@) =~= front.push(block@.elision));
        }
        let ghost second = text_lists(outputs@);
        outputs.push(crate::text::clone_texts(&block.outputs[n - 1]));
        assert(text_lists(outputs@) =~= second.push(block@.outputs.last()));
    }
    let r = CommandBlock { header, elision, outputs };
    assert(r@ =~= clipped_block(block@, keep as int));
    Some(r)
}

/// The blocks without their `skip` newest rows.
pub open spec fn clipped(b: Seq<BlockModel>, skip: int) -> Seq<BlockModel>
    decreases b.len(),
{
    if b.len() == 0 {
        Seq::empty()
    } else {
        let n = b.last().rows().len();
        if skip >= n {
            clipped(b.drop_last(), skip - n)
        } else {
            b.drop_last().push(clipped_block(b.last(), n - skip))
        }
    }
}

/// The blocks without their `skip` newest rows.
pub fn clip_newest(blocks: &[CommandBlock], skip: usize) -> (v: Vec<CommandBlock>)
    ensures
        block_models(v@) == (if skip == 0 {
            block_models(blocks@)
        } else {
            clipped(block_models(blocks@), skip as int)
        }),
{
    let ghost all = block_models(blocks@);
    let mut n: usize = blocks.len();
    let mut partial: Option<CommandBlock> = None;
    assert(all.take(n as int) =~= all);
    if skip > 0 {
        let mut rest: usize = skip;
        let mut open = true;
        while open && n > 0
            invariant
                n <= blocks@.len(),
                all == block_models(blocks@),
                open ==> partial is None && clipped(all, skip as int) == clipped(
                    all.take(n as int),
                    rest as int,
                ),
                !open ==> match partial {
                    Some(c) => clipped(all, skip as int) == all.take(n as int).push(c@),
                    None => false,
                },
            decreases (if open {
                n + 1
            } else {
                0
            }),
        {
            assert(all.take(n as int).drop_last() =~= all.take(n - 1));
            assert(all.take(n as int).last() == blocks@[n - 1]@);
            let rows: usize = block_rows(&blocks[n - 1]);
            if rest >= rows {
                rest = rest - rows;
            } else {
                partial = clip_block(&blocks[n - 1], rows - rest);
                open = false;
            }
            n = n - 1;
        }
    }
    let mut v: Vec<CommandBlock> = Vec::new();
    let mut i: usize = 0;
    assert(block_models(v@) =~= all.take(0));
    while i < n
        invariant
            i <= n <= blocks@.len(),
            all == block_models(blocks@),
            block_models(v@) == all.take(i as int),
        decreases n - i,
    {
        let ghost before = v@;
        v.push(blocks[i].copy());
        assert(block_models(v@) =~= block_models(before).push(all[i as int]));
        assert(all.take(i + 1) =~= all.take(i as int).push(all[i as int]));
        i = i + 1;
    }
    match partial {
        Some(c) => {
            let ghost before = v@;
            v.push(c);
            assert(block_models(v@) =~= block_models(before).push(c@));
        },
        None => {
            assert(skip > 0 ==> block_models(v@) =~= Seq::empty());
        },
    }
    v
}

/// One row with the first header line of its block.
pub struct FlatRow {
    pub text: String,
    pub header: String,
}

pub open spec fn flat_models(v: Seq<FlatRow>) -> Seq<(Seq<char>, Seq<char>)> {
    Seq::new(v.len(), |i: int| (v[i].text@, v[i].header@))
}

/// All rows of the blocks.
pub fn flatten(blocks: &[CommandBlock]) -> (v: Vec<FlatRow>)
    ensures
        flat_models(v@) == flat_rows(block_models(blocks@)),
{
    let ghost all = block_models(blocks@);
    let mut v: Vec<FlatRow> = Vec::new();
    let mut i: usize = 0;
    assert(all.take(0) =~= Seq::empty());
    assert(flat_models(v@) =~= Seq::empty());
    while i < blocks.len()
        invariant
            i <= blocks@.len(),
            all == block_models(blocks@),
            flat_models(v@) == flat_rows(all.take(i as int)),
        decreases blocks@.len() - i,
    {
        assert(all.take(i + 1).drop_last() =~= all.take(i as int));
        assert(all.take(i + 1).last() == blocks@[i as int]@);
        let b = &blocks[i];
        let title = if b.header.len() > 0 {
            b.header[0].clone()
        } else {
            String::new()
        };
        assert(title@ == b@.title());
        let rows = b.all();
        let ghost front = flat_models(v@);
        let mut k: usize = 0;
        assert(flat_models(v@) =~= front + Seq::new(
            0,
            |j: int| (b@.rows()[j], b@.title()),
        ));
        while k < rows.len()
            invariant
                k <= rows@.len(),
                texts(rows@) == b@.rows(),
                title@ == b@.title(),
                flat_models(v@) == front + Seq::new(
                    k as nat,
                    |j: int| (b@.rows()[j], b@.title()),
                ),
            decreases rows@.len() - k,
        {
            assert(texts(rows@)[k as int] == rows@[k as int]@);
            let ghost before = v@;
            v.push(FlatRow { text: rows[k].clone(), header: title.clone() });
            assert(flat_models(v@) =~= flat_models(before).push((b@.rows()[k as int], b@.title())));
            k = k + 1;
            assert(flat_models(v@) =~= front + Seq::new(
                k as nat,
                |j: int| (b@.rows()[j], b@.title()),
            ));
        }
        assert(rows@.len() == b@.rows().len());
        i = i + 1;
    }
    assert(all.take(i as int) =~= all);
    v
}

// ── The rows that are shown ──────────────────────────────────────────────────

/// What is shown of one block in `budget` rows, and whether any of its output is
/// hidden: the header, the result, and the newest of the other output.
pub open spec fn section(b: BlockModel, budget: int) -> (Seq<Seq<char>>, bool) {
    let h = if b.header.len() < budget {
        b.header.len() as int
    } else {
        budget
    };
    let head = b.header.take(h);
    let left = budget - h;
    if b.outputs.len() == 0 || left == 0 {
        (head, false)
    } else if left < b.outputs.last().len() {
        (head, true)
    } else {
        let internal = b.internal();
        let space = left - b.outputs.last().len();
        let elide = internal.len() > space && space > b.elision.len();
        let room = if elide {
            space - b.elision.len()
        } else {
            space
        };
        let show = if room < internal.len() {
            room
        } else {
            internal.len() as int
        };
        let head = if elide {
            head + b.elision
        } else {
            head
        };
        (
            head + internal.skip(internal.len() - show) + b.outputs.last(),
            internal.len() > show,
        )
    }
}

/// What is shown of the blocks in `budget` rows, the newest first served, and
/// whether anything is hidden.
pub open spec fn priority(b: Seq<BlockModel>, budget: int) -> (Seq<Seq<char>>, bool)
    decreases b.len(),
{
    if b.len() == 0 {
        (Seq::empty(), false)
    } else if budget <= 0 || b.last().header.len() == 0 {
        (Seq::empty(), true)
    } else {
        let s = section(b.last(), budget);
        let rest = priority(b.drop_last(), budget - s.0.len());
        (rest.0 + s.0, rest.1 || s.1)
    }
}

/// What is shown never takes more rows than there are.
pub proof fn lemma_priority_fits(b: Seq<BlockModel>, budget: int)
    requires
        budget >= 0,
    ensures
        priority(b, budget).0.len() <= budget,
    decreases b.len(),
{
    if b.len() > 0 && budget > 0 && b.last().header.len() > 0 {
        let s = section(b.last(), budget);
        lemma_priority_fits(b.drop_last(), budget - s.0.len());
    }
}

/// The newest command is shown before any other: its header stands whole where
/// there is room for it, and its result is the last row where there is room for
/// both.
pub proof fn lemma_newest_first(b: Seq<BlockModel>, budget: int)
    requires
        b.len() > 0,
        0 < b.last().header.len() <= budget,
    ensures
        ({
            let rows = priority(b, budget).0;
            let header = b.last().header;
            let at = rows.len() - section(b.last(), budget).0.len();
            &&& 0 <= at
            &&& rows.subrange(at, at + header.len()) == header
            &&& b.last().outputs.len() > 0 && 0 < b.last().outputs.last().len() <= budget
                - header.len() ==> rows.last() == b.last().outputs.last().last()
        }),
{
    let s = section(b.last(), budget);
    let rest = priority(b.drop_last(), budget - s.0.len());
    let header = b.last().header;
    assert(header.take(header.len() as int) =~= header);
    let at = rest.0.len() as int;
    assert((rest.0 + s.0).subrange(at, at + header.len()) =~= header);
}

fn show_block(b: &CommandBlock, budget: usize) -> (r: (Vec<String>, bool))
    requires
        budget > 0,
        b.header@.len() > 0,
    ensures
        texts(r.0@) == section(b@, budget as int).0,
        r.1 == section(b@, budget as int).1,
        0 < r.0@.len() <= budget,
{
    let h: usize = min_len(b.header.len(), budget);
    let mut rows: Vec<String> = Vec::new();
    assert(texts(rows@) =~= Seq::empty());
    append_texts(&mut rows, &b.header, 0, h);
    assert(texts(rows@) =~= b@.header.take(h as int));
    let left: usize = budget - h;
    let n: usize = b.outputs.len();
    if n == 0 || left == 0 {
        assert(rows@.len() == texts(rows@).len());
        return (rows, false);
    }
    let result = &b.outputs[n - 1];
    assert(texts(result@) == b@.outputs.last());
    if left < result.len() {
        assert(rows@.len() == texts(rows@).len());
        return (rows, true);
    }
    assert(b@.outputs.take(n - 1) =~= b@.outputs.drop_last());
    let internal = join_first(&b.outputs, n - 1);
    let space: usize = left - result.len();
    let elide = internal.len() > space && space > b.elision.len();
    let room: usize = if elide {
        space - b.elision.len()
    } else {
        space
    };
    let show: usize = min_len(room, internal.len());
    let k: usize = internal.len();
    if elide {
        append_all(&mut rows, &b.elision);
    }
    append_texts(&mut rows, &internal, k - show, k);
    assert(texts(internal@).subrange(k - show, k as int) =~= texts(internal@).skip(k - show));
    append_all(&mut rows, result);
    assert(texts(rows@).len() == rows@.len());
    (rows, k > show)
}

fn show_blocks(blocks: &[CommandBlock], n: usize, budget: usize) -> (r: (Vec<String>, bool))
    requires
        n <= blocks@.len(),
    ensures
        texts(r.0@) == priority(block_models(blocks@).take(n as int), budget as int).0,
        r.1 == priority(block_models(blocks@).take(n as int), budget as int).1,
    decreases n,
{
    let ghost all = block_models(blocks@).take(n as int);
    let mut none: Vec<String> = Vec::new();
    assert(texts(none@) =~= Seq::empty());
    if n == 0 {
        return (none, false);
    }
    assert(all.last() == blocks@[n - 1]@);
    assert(all.drop_last() =~= block_models(blocks@).take(n - 1));
    if budget == 0 || blocks[n - 1].header.len() == 0 {
        return (none, true);
    }
    let (rows, hidden) = show_block(&blocks[n - 1], budget);
    let (front, more) = show_blocks(blocks, n - 1, budget - rows.len());
    let mut v = front;
    append_all(&mut v, &rows);
    (v, more || hidden)
}

/// The rows shown in `area_h` rows, and whether anything is hidden.
pub fn build_priority_rows(blocks: &[CommandBlock], area_h: usize) -> (r: (Vec<String>, bool))
    ensures
        area_h == 0 ==> r.0@.len() == 0 && !r.1,
        area_h > 0 ==> texts(r.0@) == priority(block_models(blocks@), area_h as int).0,
        area_h > 0 ==> r.1 == priority(block_models(blocks@), area_h as int).1,
{
    if area_h == 0 {
        return (Vec::new(), false);
    }
    assert(block_models(blocks@).take(blocks@.len() as int) =~= block_models(blocks@));
    show_blocks(blocks, blocks.len(), area_h)
}

/// The rows shown when the `scroll` newest are scrolled off: as many as there is
/// room for, the first replaced by the header of its block.
pub open spec fn scrolled_rows(b: Seq<BlockModel>, area: int, scroll: int) -> Seq<Seq<char>> {
    let flat = flat_rows(clipped(b, scroll));
    let start = if flat.len() > area {
        flat.len() - area
    } else {
        0
    };
    Seq::new(
        (flat.len() - start) as nat,
        |i: int|
            if i == 0 {
                flat[start].1
            } else {
                flat[start + i].0
            },
    )
}

/// The rows shown of the blocks in `area` rows.
pub open spec fn shown_rows(b: Seq<BlockModel>, area: int, scroll: int) -> Seq<Seq<char>> {
    if scroll > 0 {
        scrolled_rows(b, area, scroll)
    } else if area > 0 {
        priority(b, area).0
    } else {
        Seq::empty()
    }
}

/// There are never more rows shown than there is room for.
pub proof fn lemma_shown_fits(b: Seq<BlockModel>, area: int, scroll: int)
    requires
        area >= 0,
    ensures
        shown_rows(b, area, scroll).len() <= area,
{
    if scroll <= 0 {
        lemma_priority_fits(b, area);
    }
}

/// The rows shown of the blocks in `area` rows.
pub fn visible_rows(blocks: &[CommandBlock], area: usize, scroll: usize) -> (v: Vec<String>)
    ensures
        texts(v@) == shown_rows(block_models(blocks@), area as int, scroll as int),
        v@.len() <= area,
{
    proof {
        lemma_shown_fits(block_models(blocks@), area as int, scroll as int);
    }
    if scroll == 0 {
        let (rows, _) = build_priority_rows(blocks, area);
        assert(texts(rows@) =~= shown_rows(block_models(blocks@), area as int, 0));
        assert(texts(rows@).len() == rows@.len());
        return rows;
    }
    let kept = clip_newest(blocks, scroll);
    let flat = flatten(&kept);
    let ghost f = flat_models(flat@);
    let n: usize = flat.len();
    let start: usize = n.saturating_sub(area);
    let mut v: Vec<String> = Vec::new();
    while v.len() < n - start
        invariant
            start <= n == flat@.len(),
            f == flat_models(flat@),
            v@.len() <= n - start,
            forall|i: int|
                0 <= i < v@.len() ==> (#[trigger] v@[i])@ == (if i == 0 {
                    f[start as int].1
                } else {
                    f[start + i].0
                }),
        decreases n - start - v@.len(),
    {
        let i: usize = v.len();
        assert(f[start + i] == (flat@[start + i].text@, flat@[start + i].header@));
        if i == 0 {
            v.push(flat[start].header.clone());
        } else {
            v.push(flat[start + i].text.clone());
        }
    }
    assert(texts(v@) =~= scrolled_rows(block_models(blocks@), area as int, scroll as int));
    v
}

// ── Drawing ──────────────────────────────────────────────────────────────────

/// The first `n` rows of a panel, one below the other from row `y` on.
pub open spec fn panel_rows(t: Seq<char>, y: int, rows: Seq<Seq<char>>, n: int, inner: int) -> Seq<
    char,
>
    decreases n,
{
    if n <= 0 {
        t
    } else {
        let t = panel_rows(t, y, rows, n - 1, inner);
        put_padded(put(t, 0, y + n - 1, "│"@), sliced(rows[n - 1], 0, inner), inner) + " │"@
    }
}

/// How high the panel can be on a screen of `h` rows.
pub open spec fn panel_limit(h: u16) -> int {
    let most = if h >= 8 {
        h - 8
    } else {
        0
    };
    if h * 3 / 4 < most {
        h * 3 / 4
    } else {
        most
    }
}

/// How many characters the rows of the panel are wide before they are cut.
pub open spec fn panel_width(w: u16, path: Seq<char>, c: Seq<EntryModel>) -> int {
    max_nat(content_width(path, c), (w - 3) as nat) as int
}

/// The frame of the panel from row `top` on, with the path, the rows and the
/// scrollbar in it.
pub open spec fn panel_box(
    t: Seq<char>,
    w: u16,
    top: u16,
    path: Seq<char>,
    rows: Seq<Seq<char>>,
    total: usize,
    area: usize,
    scroll: usize,
) -> Seq<char> {
    let inner = w - 3;
    let t = put(t, 0, top as int, "┌"@) + repeated('─', w - 2) + "┐"@;
    let t = put_padded(put(t, 0, top + 1, "│"@), sliced(path, 0, inner), inner) + " │"@;
    let t = panel_rows(t, top + 2, rows, rows.len() as int, inner);
    if total > area {
        scrollbar_drawn(
            t,
            (w - 2) as u16,
            (top + 2) as u16,
            (top + area + 1) as u16,
            total,
            area,
            (total - area - scroll) as usize,
        )
    } else {
        t
    }
}

/// The screen with the command panel above the status bar.
pub open spec fn panel_drawn(
    t: Seq<char>,
    w: u16,
    h: u16,
    path: Seq<char>,
    c: Seq<EntryModel>,
    scroll: int,
) -> Seq<char> {
    let limit = panel_limit(h);
    let blocks = blocks_of(c, panel_width(w, path, c));
    let total = all_rows(blocks).len() as int;
    if path.len() == 0 || c.len() == 0 || w < 5 || limit < 3 || total == 0 {
        t
    } else {
        let height = if total + 2 < limit {
            total + 2
        } else {
            limit
        };
        let area = height - 2;
        let max_scroll = if total > area {
            total - area
        } else {
            0
        };
        let scroll = if scroll < max_scroll {
            scroll
        } else {
            max_scroll
        };
        let top = h - 3 - height;
        let rows = shown_rows(blocks, area, scroll);
        panel_box(t, w, top as u16, path, rows, total as usize, area as usize, scroll as usize)
    }
}

fn draw_panel_row(out: &mut String, y: u16, row: &str, inner: usize)
    requires
        y < 0xffff,
    ensures
        final(out)@ == put_padded(
            put(old(out)@, 0, y as int, "│"@),
            sliced(row@, 0, inner as int),
            inner as int,
        ) + " │"@,
{
    crate::ui::window::put_text(out, 0, y, "│");
    let display = slice_line(row, 0, inner);
    push_padded(out, &display, inner);
    out.append(" │");
}

/// Draws the command panel above the status bar, where there is room for it.
pub fn draw_command_panel(
    out: &mut String,
    w: u16,
    h: u16,
    path: &str,
    commands: &[CommandEntry],
    scroll: usize,
)
    ensures
        final(out)@ == panel_drawn(old(out)@, w, h, path@, entries(commands@), scroll as int),
{
    let limit: usize = min_len(h as usize * 3 / 4, h.saturating_sub(8) as usize);
    if path.is_empty() || commands.len() == 0 || w < 5 || limit < 3 {
        return;
    }
    let inner: usize = (w - 3) as usize;
    let width: usize = max_len(terminal_content_width(path, commands), inner);
    let blocks = build_blocks(commands, width);
    let total: usize = total_rows(&blocks);
    if total == 0 {
        return;
    }
    let height: usize = if total < limit - 2 {
        total + 2
    } else {
        limit
    };
    let area: usize = height - 2;
    let max_scroll: usize = total.saturating_sub(area);
    let scroll: usize = min_len(scroll, max_scroll);
    let top: u16 = h - 3 - height as u16;
    let rows = visible_rows(&blocks, area, scroll);
    draw_panel_box(out, w, top, path, &rows, total, area, scroll);
}

fn draw_panel_box(
    out: &mut String,
    w: u16,
    top: u16,
    path: &str,
    rows: &[String],
    total: usize,
    area: usize,
    scroll: usize,
)
    requires
        w >= 5,
        rows@.len() <= area,
        top + area + 4 <= 0xffff,
        total > area ==> scroll <= total - area,
    ensures
        final(out)@ == panel_box(old(out)@, w, top, path@, texts(rows@), total, area, scroll),
{
    let inner: usize = (w - 3) as usize;
    crate::ui::window::put_text(out, 0, top, "┌");
    push_repeated(out, '─', (w - 2) as usize);
    out.append("┐");
    draw_panel_row(out, top + 1, path, inner);
    let ghost shown = texts(rows@);
    let ghost before = out@;
    let mut i: usize = 0;
    while i < rows.len()
        invariant
            i <= rows@.len() <= area,
            top + area + 4 <= 0xffff,
            shown == texts(rows@),
            out@ == panel_rows(before, top + 2, shown, i as int, inner as int),
        decreases rows@.len() - i,
    {
        assert(shown[i as int] == rows@[i as int]@);
        draw_panel_row(out, top + 2 + i as u16, rows[i].as_str(), inner);
        i = i + 1;
    }
    if total > area {
        draw_scrollbar(
            out,
            w - 2,
            top + 2,
            top + (area as u16 + 1),
            total,
            area,
            total - area - scroll,
        );
    }
}

} // verus!
