use vstd::prelude::*;

verus! {

pub const VGA_WIDTH: usize = 80;
pub const VGA_HEIGHT: usize = 25;
pub const VGA_BUFFER_ADDR: usize = 0xb8000;
pub const DEFAULT_COLOR: u8 = 0x1f;

/// The text buffer after clearing to `color`: blanks in that color.
pub open spec fn clear_spec(color: u8) -> Seq<u8> {
    Seq::new((VGA_WIDTH * VGA_HEIGHT * 2) as nat, |i: int| if i % 2 == 0 { 32u8 } else { color })
}

/// The cells of a row showing `text`: its first 80 bytes, each followed by
/// the default color.
pub open spec fn line_cells(text: Seq<u8>) -> Seq<u8> {
    let n = if text.len() < VGA_WIDTH { text.len() as int } else { VGA_WIDTH as int };
    Seq::new((2 * n) as nat, |i: int| if i % 2 == 0 { text[i / 2] } else { DEFAULT_COLOR })
}

/// A row shows the start of its text: as many cells as the text has bytes,
/// at most a row's width, and cell `k` holds byte `k` of the text in the
/// default color.
pub proof fn law_line_shows_text_prefix(text: Seq<u8>)
    ensures
        line_cells(text).len() == 2 * if text.len() < VGA_WIDTH { text.len() as int } else { VGA_WIDTH as int },
        forall|k: int| 0 <= k < text.len() && k < VGA_WIDTH ==> #[trigger] line_cells(text)[2 * k] == text[k]
            && line_cells(text)[2 * k + 1] == DEFAULT_COLOR,
{
    assert forall|k: int| 0 <= k < text.len() && k < VGA_WIDTH implies #[trigger] line_cells(text)[2 * k] == text[k]
        && line_cells(text)[2 * k + 1] == DEFAULT_COLOR by {
        assert((2 * k) % 2 == 0 && (2 * k) / 2 == k);
        assert((2 * k + 1) % 2 == 1);
    }
}

/// The bytes of the whole text buffer, cleared to `color`.
pub fn clear_screen(color: u8) -> (r: Vec<u8>)
    ensures
        r@ == clear_spec(color),
{
    let mut cells: Vec<u8> = Vec::new();
    let mut i: usize = 0;
    while i < VGA_WIDTH * VGA_HEIGHT
        invariant
            i <= VGA_WIDTH * VGA_HEIGHT,
            cells@.len() == 2 * i,
            forall|j: int| 0 <= j < 2 * i ==> #[trigger] cells@[j] == if j % 2 == 0 { 32u8 } else { color },
        decreases VGA_WIDTH * VGA_HEIGHT - i,
    {
        cells.push(32);
        cells.push(color);
        i = i + 1;
    }
    assert(cells@ =~= clear_spec(color));
    cells
}

/// Where row `row` starts in the text buffer and the bytes to put there to
/// show `text`; `None` for a row below the screen.
pub fn write_line(row: usize, text: &[u8]) -> (r: Option<(usize, Vec<u8>)>)
    ensures
        row >= VGA_HEIGHT ==> r is None,
        row < VGA_HEIGHT ==> (r matches Some(p) && p.0 == row * VGA_WIDTH * 2 && p.1@ == line_cells(text@)),
{
    if row >= VGA_HEIGHT {
        return None;
    }
    let n = if text.len() < VGA_WIDTH { text.len() } else { VGA_WIDTH };
    let mut cells: Vec<u8> = Vec::new();
    let mut i: usize = 0;
    while i < n
        invariant
            i <= n <= text@.len(),
            n <= VGA_WIDTH,
            cells@.len() == 2 * i,
            forall|j: int| 0 <= j < 2 * i ==> #[trigger] cells@[j] == if j % 2 == 0 { text@[j / 2] } else { DEFAULT_COLOR },
        decreases n - i,
    {
        cells.push(text[i]);
        cells.push(DEFAULT_COLOR);
        i = i + 1;
    }
    assert(cells@ =~= line_cells(text@));
    Some((row * VGA_WIDTH * 2, cells))
}

} // verus!
