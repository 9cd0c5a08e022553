//! The bars: each number is drawn as a column of block glyphs, four levels
//! to a cell, and the columns stand side by side.

use vstd::prelude::*;
use vstd::string::{StrSliceExecFns, StringExecFns};

verus! {

/// A cell filled to the top.
pub const BLOCK_FULL: char = '\u{2588}';

/// A cell filled to three quarters.
pub const BLOCK_HALF_QUARTER: char = '\u{2586}';

/// A cell filled to the half.
pub const BLOCK_HALF: char = '\u{2584}';

/// A cell filled to a quarter.
pub const BLOCK_QUARTER: char = '\u{2582}';

/// The top of a bar of height `i`: the glyph for what is left over when the
/// full cells are taken away, or nothing.
pub open spec fn top(i: nat) -> Seq<char> {
    if i % 4 == 1 {
        seq![BLOCK_QUARTER]
    } else if i % 4 == 2 {
        seq![BLOCK_HALF]
    } else if i % 4 == 3 {
        seq![BLOCK_HALF_QUARTER]
    } else {
        Seq::empty()
    }
}

/// The bar of height `i`, from the bottom up: a full cell for every four
/// levels, then the top.
pub open spec fn bar(i: nat) -> Seq<char> {
    Seq::new(i / 4, |k: int| BLOCK_FULL) + top(i)
}

/// Returns the bars of the heights one to `n`, each from the bottom up.
pub fn block_strings(n: usize) -> (blocks: Vec<String>)
    ensures
        blocks@.len() == n,
        forall|k: int| 0 <= k < n ==> (#[trigger] blocks@[k])@ == bar((k + 1) as nat),
{
    proof {
        reveal_strlit("\u{2588}");
        reveal_strlit("\u{2586}");
        reveal_strlit("\u{2584}");
        reveal_strlit("\u{2582}");
    }
    let mut v: Vec<String> = Vec::new();
    let mut i: usize = 0;
    while i < n
        invariant
            i <= n,
            v@.len() == i,
            forall|k: int| 0 <= k < i ==> (#[trigger] v@[k])@ == bar((k + 1) as nat),
            "\u{2588}"@ == seq![BLOCK_FULL],
            "\u{2586}"@ == seq![BLOCK_HALF_QUARTER],
            "\u{2584}"@ == seq![BLOCK_HALF],
            "\u{2582}"@ == seq![BLOCK_QUARTER],
        decreases n - i,
    {
        i += 1;
        let mut s = String::new();
        let mut full: usize = 0;
        while full < i / 4
            invariant
                full <= i / 4,
                s@ == Seq::new(full as nat, |k: int| BLOCK_FULL),
                "\u{2588}"@ == seq![BLOCK_FULL],
            decreases i / 4 - full,
        {
            s.append("\u{2588}");
            full += 1;
            assert(s@ =~= Seq::new(full as nat, |k: int| BLOCK_FULL));
        }
        if i % 4 == 1 {
            s.append("\u{2582}");
        } else if i % 4 == 2 {
            s.append("\u{2584}");
        } else if i % 4 == 3 {
            s.append("\u{2586}");
        }
        assert(s@ =~= bar(i as nat));
        v.push(s);
    }
    v
}

/// The bars as plain values.
pub open spec fn bars(blocks: Seq<String>) -> Seq<Seq<char>> {
    blocks.map_values(|block: String| block@)
}

/// Every number of `nums` has its bar among `blocks`.
pub open spec fn drawable(blocks: Seq<Seq<char>>, nums: Seq<i32>) -> bool {
    &&& blocks.len() > 0
    &&& forall|j: int| 0 <= j < nums.len() ==> 1 <= #[trigger] nums[j] <= blocks.len()
}

/// What the column `column` shows at `level`, counted from the bottom: its
/// glyph there, or a blank above its top.
pub open spec fn cell(column: Seq<char>, level: int) -> char {
    if 0 <= level < column.len() {
        column[level]
    } else {
        ' '
    }
}

/// One line of the picture: the cells of all the bars of `nums` at `level`,
/// from left to right, and the end of the line.
pub open spec fn line(blocks: Seq<Seq<char>>, nums: Seq<i32>, level: int) -> Seq<char> {
    Seq::new(nums.len(), |j: int| cell(blocks[nums[j] - 1], level)).push('\n')
}

/// The lowest `levels` lines of the picture, the highest of them first.
pub open spec fn picture(blocks: Seq<Seq<char>>, nums: Seq<i32>, levels: nat) -> Seq<char>
    decreases levels,
{
    if levels == 0 {
        Seq::empty()
    } else {
        line(blocks, nums, levels - 1) + picture(blocks, nums, (levels - 1) as nat)
    }
}

/// Draws `nums` as bars side by side: as many lines as the last of
/// `blocks` is high, the top line first.
pub fn display_text(blocks: &Vec<String>, nums: &Vec<i32>) -> (text: String)
    requires
        drawable(bars(blocks@), nums@),
    ensures
        text@ == picture(bars(blocks@), nums@, bars(blocks@).last().len()),
{
    proof {
        reveal_strlit(" ");
        reveal_strlit("\n");
    }
    let ghost shapes = bars(blocks@);
    let max_height = blocks[blocks.len() - 1].as_str().unicode_len();
    let mut result = String::new();
    let mut i: usize = 0;
    while i < max_height
        invariant
            i <= max_height,
            shapes == bars(blocks@),
            drawable(shapes, nums@),
            result@ + picture(shapes, nums@, (max_height - i) as nat) == picture(
                shapes,
                nums@,
                max_height as nat,
            ),
            " "@ == seq![' '],
            "\n"@ == seq!['\n'],
        decreases max_height - i,
    {
        let level: usize = max_height - i - 1;
        let ghost before = result@;
        let mut j: usize = 0;
        while j < nums.len()
            invariant
                j <= nums@.len(),
                shapes == bars(blocks@),
                drawable(shapes, nums@),
                result@ == before + Seq::new(
                    j as nat,
                    |k: int| cell(shapes[nums@[k] - 1], level as int),
                ),
                " "@ == seq![' '],
            decreases nums@.len() - j,
        {
            let ghost so_far = result@;
            let column = blocks[(nums[j] as usize) - 1].as_str();
            assert(column@ == shapes[nums@[j as int] - 1]);
            if level < column.unicode_len() {
                result.append(column.substring_char(level, level + 1));
                assert(result@ =~= so_far.push(column@[level as int]));
            } else {
                result.append(" ");
                assert(result@ =~= so_far.push(' '));
            }
            j += 1;
            assert(result@ =~= before + Seq::new(
                j as nat,
                |k: int| cell(shapes[nums@[k] - 1], level as int),
            ));
        }
        result.append("\n");
        i += 1;
        assert(result@ =~= before + line(shapes, nums@, level as int));
        assert(result@ + picture(shapes, nums@, (max_height - i) as nat) =~= before + picture(
            shapes,
            nums@,
            (max_height - i + 1) as nat,
        ));
    }
    assert(result@ =~= result@ + picture(shapes, nums@, 0));
    result
}

} // verus!
