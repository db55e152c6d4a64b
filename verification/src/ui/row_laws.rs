//! Which rows of the commands are shown, and how their lines are made up.
use vstd::prelude::*;
use crate::cmd::{with_lines, CommandStatus, EntryModel};
use crate::text::trim;
use crate::ui::panel::{
    all_rows, clipped, command_line, content_width, enters_cwd, flat_rows, output_line,
    output_width, priority, section, shown_rows, BlockModel,
};

verus! {

/// Every block has a header.
pub open spec fn all_headed(b: Seq<BlockModel>) -> bool {
    forall|i: int| 0 <= i < b.len() ==> (#[trigger] b[i]).header.len() > 0
}

/// A block that fits is shown whole.
proof fn lemma_section_whole(b: BlockModel, budget: int)
    requires
        b.rows().len() <= budget,
    ensures
        section(b, budget) == (b.rows(), false),
{
    assert(b.header.take(b.header.len() as int) =~= b.header);
    if b.outputs.len() == 0 {
        assert(b.rows() =~= b.header);
    } else {
        let inner = b.internal();
        let last = b.outputs.last();
        assert(b.rows() =~= b.header + inner + last);
        assert(inner.skip(0) =~= inner);
        if budget == b.header.len() {
            assert(b.rows() =~= b.header);
        }
    }
}

/// Where there is room for all rows, all are shown, in order, and nothing is hidden.
pub proof fn lemma_all_rows_shown(b: Seq<BlockModel>, area: int)
    requires
        all_headed(b),
        all_rows(b).len() <= area,
    ensures
        priority(b, area) == (all_rows(b), false),
        shown_rows(b, area, 0) == all_rows(b),
    decreases b.len(),
{
    if b.len() > 0 {
        let f = b.drop_last();
        assert(all_headed(f)) by {
            assert forall|i: int| 0 <= i < f.len() implies (#[trigger] f[i]).header.len() > 0 by {
                assert(f[i] == b[i]);
            }
        }
        assert(b[b.len() - 1].header.len() > 0);
        lemma_section_whole(b.last(), area);
        lemma_all_rows_shown(f, area - b.last().rows().len());
    }
    if area <= 0 {
        assert(all_rows(b) =~= Seq::empty());
    }
}

/// Scrolling the rows of the newest command off shows what was shown before it was run.
pub proof fn lemma_newest_scrolled_off(b: Seq<BlockModel>, last: BlockModel)
    requires
        last.rows().len() > 0,
    ensures
        clipped(b.push(last), last.rows().len() as int) == clipped(b, 0),
        b.len() > 0 && b.last().rows().len() > 0 ==> clipped(b, 0) == b,
{
    assert(b.push(last).drop_last() =~= b);
    if b.len() > 0 && b.last().rows().len() > 0 {
        assert(clipped(b, 0) =~= b) by {
            assert(b.drop_last().push(b.last()) =~= b);
        }
    }
}

proof fn lemma_flat(b: Seq<BlockModel>)
    ensures
        flat_rows(b).len() == all_rows(b).len(),
        forall|i: int| 0 <= i < all_rows(b).len() ==> (#[trigger] flat_rows(b)[i]).0 == all_rows(b)[i],
    decreases b.len(),
{
    if b.len() > 0 {
        lemma_flat(b.drop_last());
    }
}

/// Scrolled, the rows end with the last that is not scrolled off, and all but the first are
/// rows one behind the other.
pub proof fn lemma_scrolled_rows(b: Seq<BlockModel>, area: int, scroll: int)
    requires
        area > 0,
        scroll > 0,
    ensures
        ({
            let rest = all_rows(clipped(b, scroll));
            let s = shown_rows(b, area, scroll);
            &&& s.len() == (if rest.len() < area {
                rest.len() as int
            } else {
                area
            })
            &&& forall|i: int|
                0 < i < s.len() ==> #[trigger] s[i] == rest[rest.len() - s.len() + i]
        }),
{
    lemma_flat(clipped(b, scroll));
}

// ── Lines ────────────────────────────────────────────────────────────────────

/// The lines of a command: its own line, then those of its output. All but the last
/// branch off the tree, the last closes it and says where the command still runs.
pub proof fn lemma_command_lines(e: EntryModel, i: int)
    requires
        0 <= i < e.output_lines.len(),
    ensures
        command_line(e) == seq![' ', ' ', '├', '─', '┬', ' '] + e.command,
        ({
            let last = i == e.output_lines.len() - 1;
            output_line(e, i) == seq![
                ' ',
                ' ',
                '│',
                ' ',
                if last {
                    '└'
                } else {
                    '├'
                },
                '─',
                ' ',
            ] + e.output_lines[i] + (if last && e.status == CommandStatus::Running {
                seq![' ', '(', 'r', 'u', 'n', 'n', 'i', 'n', 'g', ')']
            } else {
                Seq::empty()
            })
        }),
{
    reveal_strlit("  ├─┬ ");
    reveal_strlit("  │ ");
    reveal_strlit("└─ ");
    reveal_strlit("├─ ");
    reveal_strlit(" (running)");
    reveal_strlit("");
    assert(command_line(e) =~= seq![' ', ' ', '├', '─', '┬', ' '] + e.command);
    let last = i == e.output_lines.len() - 1;
    assert(output_line(e, i) =~= seq![
        ' ',
        ' ',
        '│',
        ' ',
        if last {
            '└'
        } else {
            '├'
        },
        '─',
        ' ',
    ] + e.output_lines[i] + (if last && e.status == CommandStatus::Running {
        seq![' ', '(', 'r', 'u', 'n', 'n', 'i', 'n', 'g', ')']
    } else {
        Seq::empty()
    }));
}

/// A directory is shown above a command that is run in another than the one before it, and
/// above no other.
pub proof fn lemma_directory_shown(c: Seq<EntryModel>, e: EntryModel)
    requires
        e.cwd.len() > 0,
    ensures
        c.len() == 0 ==> enters_cwd(c, e),
        c.len() > 0 && c.last().cwd == e.cwd ==> !enters_cwd(c, e),
        c.len() > 0 && c.last().cwd.len() > 0 && c.last().cwd != e.cwd ==> enters_cwd(c, e),
{
}

proof fn lemma_output_width(e: EntryModel, n: int)
    requires
        0 <= n <= e.output_lines.len(),
    ensures
        forall|i: int| 0 <= i < n ==> (#[trigger] output_line(e, i)).len() <= output_width(e, n),
        output_width(e, n) == 0 || exists|i: int|
            0 <= i < n && (#[trigger] output_line(e, i)).len() == output_width(e, n),
    decreases n,
{
    if n > 0 {
        lemma_output_width(e, n - 1);
        if output_line(e, n - 1).len() < output_width(e, n) {
            let i = choose|i: int|
                0 <= i < n - 1 && (#[trigger] output_line(e, i)).len() == output_width(e, n - 1);
            assert(output_line(e, i).len() == output_width(e, n));
        } else {
            assert(output_line(e, n - 1).len() == output_width(e, n));
        }
    }
}

/// The content is as wide as its widest line: no line is wider, and it is the path with
/// three columns more, or one of the lines is as wide.
pub proof fn lemma_content_is_widest(path: Seq<char>, c: Seq<EntryModel>)
    ensures
        content_width(path, c) >= path.len() + 3,
        forall|i: int|
            0 <= i < c.len() ==> command_line(#[trigger] c[i]).len() <= content_width(path, c),
        forall|i: int, k: int|
            0 <= i < c.len() && 0 <= k < c[i].output_lines.len() ==> (#[trigger] output_line(
                c[i],
                k,
            )).len() <= content_width(path, c),
        content_width(path, c) == path.len() + 3 || (exists|i: int|
            0 <= i < c.len() && (command_line(#[trigger] c[i]).len() == content_width(path, c)
                || c[i].cwd.len() == content_width(path, c) || output_width(
                c[i],
                c[i].output_lines.len() as int,
            ) == content_width(path, c))),
    decreases c.len(),
{
    if c.len() > 0 {
        let f = c.drop_last();
        let e = c.last();
        let n = c.len() - 1;
        lemma_content_is_widest(path, f);
        lemma_output_width(e, e.output_lines.len() as int);
        assert forall|i: int| 0 <= i < c.len() implies command_line(#[trigger] c[i]).len()
            <= content_width(path, c) by {
            if i < n {
                assert(f[i] == c[i]);
            }
        }
        assert forall|i: int, k: int| 0 <= i < c.len() && 0 <= k < c[i].output_lines.len() implies (
        #[trigger] output_line(c[i], k)).len() <= content_width(path, c) by {
            if i < n {
                assert(f[i] == c[i]);
                assert(output_line(f[i], k).len() <= content_width(path, f));
            } else {
                assert(c[i] == e);
            }
        }
        assert(c[n] == e);
        let all = content_width(path, c);
        if all != command_line(e).len() && all != e.cwd.len() && all != output_width(
            e,
            e.output_lines.len() as int,
        ) && all != path.len() + 3 {
            assert(all == content_width(path, f));
            let i = choose|i: int|
                0 <= i < f.len() && (command_line(#[trigger] f[i]).len() == content_width(path, f)
                    || f[i].cwd.len() == content_width(path, f) || output_width(
                    f[i],
                    f[i].output_lines.len() as int,
                ) == content_width(path, f));
            assert(f[i] == c[i]);
        }
    }
}

// ── Output ───────────────────────────────────────────────────────────────────

/// Behind the first line that is not blank, output is kept line by line, in order.
pub proof fn lemma_output_kept(out: Seq<Seq<char>>, lines: Seq<Seq<char>>)
    requires
        out.len() > 0,
    ensures
        with_lines(out, lines) == out + lines,
    decreases lines.len(),
{
    if lines.len() == 0 {
        assert(out + lines =~= out);
    } else {
        lemma_output_kept(out, lines.drop_last());
        assert(with_lines(out, lines) =~= out + lines);
    }
}

/// Blank lines before any other are left out, and no other line is.
pub proof fn lemma_blank_start(blank: Seq<Seq<char>>, line: Seq<char>, more: Seq<Seq<char>>)
    requires
        forall|i: int| 0 <= i < blank.len() ==> trim(#[trigger] blank[i]).len() == 0,
        trim(line).len() > 0,
    ensures
        with_lines(Seq::empty(), blank.push(line) + more) == seq![line] + more,
    decreases more.len(),
{
    if more.len() == 0 {
        lemma_all_blank(blank);
        let all = blank.push(line);
        assert(all + more =~= all);
        assert(all.drop_last() =~= blank);
        assert(Seq::<Seq<char>>::empty().push(line) =~= seq![line] + more);
    } else {
        let all = blank.push(line) + more;
        assert(all.drop_last() =~= blank.push(line) + more.drop_last());
        lemma_blank_start(blank, line, more.drop_last());
        assert((seq![line] + more.drop_last()).push(more.last()) =~= seq![line] + more);
    }
}

proof fn lemma_all_blank(blank: Seq<Seq<char>>)
    requires
        forall|i: int| 0 <= i < blank.len() ==> trim(#[trigger] blank[i]).len() == 0,
    ensures
        with_lines(Seq::empty(), blank).len() == 0,
    decreases blank.len(),
{
    if blank.len() > 0 {
        let f = blank.drop_last();
        assert forall|i: int| 0 <= i < f.len() implies trim(#[trigger] f[i]).len() == 0 by {
            assert(f[i] == blank[i]);
        }
        lemma_all_blank(f);
        assert(trim(blank[blank.len() - 1]).len() == 0);
    }
}

} // verus!
