//! Compact little-endian storage: a tagged encoding for terms and a
//! nibble-packed grid format (magic word, version byte, then per grid
//! a two-byte row count, two-byte column count and a packed flag;
//! small cells go two per byte, low nibble first).

use vstd::prelude::*;
use crate::types::Term;
use crate::grid::{Grid, grid_view, grid_wf, rows_of, cols_of, rect};

verus! {

broadcast use crate::grid::lemma_grid_row_len;

pub const MAGIC: u32 = 0x4B4F4C53;
pub const VERSION: u8 = 1;

pub const TAG_VAR: u8 = 0;
pub const TAG_ATOM: u8 = 1;
pub const TAG_INT: u8 = 2;
pub const TAG_FLOAT: u8 = 3;
pub const TAG_STR: u8 = 4;
pub const TAG_BOOL: u8 = 5;
pub const TAG_COMPOUND: u8 = 6;
pub const TAG_LIST: u8 = 7;
pub const TAG_NIL: u8 = 8;

/// An append-only byte sink for the storage format.
pub struct BinaryWriter {
    pub buf: Vec<u8>,
}

impl BinaryWriter {
    /// An empty writer.
    pub fn new() -> (w: BinaryWriter)
        ensures
            w.buf@.len() == 0,
    {
        BinaryWriter { buf: Vec::new() }
    }

    /// Hands the accumulated bytes over.
    pub fn into_bytes(self) -> (r: Vec<u8>)
        ensures
            r@ == self.buf@,
    {
        self.buf
    }

    /// How many bytes were written.
    pub fn len(&self) -> (n: usize)
        ensures
            n == self.buf@.len(),
    {
        self.buf.len()
    }

    fn write_u8(&mut self, v: u8)
        ensures
            final(self).buf@ == old(self).buf@.push(v),
    {
        self.buf.push(v);
    }

    fn write_u16(&mut self, v: u16)
        ensures
            final(self).buf@ == old(self).buf@.push((v & 0xFF) as u8).push((v >> 8) as u8),
    {
        self.buf.push((v & 0xFF) as u8);
        self.buf.push((v >> 8) as u8);
    }

    fn write_u32(&mut self, v: u32)
        ensures
            final(self).buf@.len() == old(self).buf@.len() + 4,
            forall|k: int| 0 <= k < old(self).buf@.len() ==> final(self).buf@[k] == old(
                self,
            ).buf@[k],
    {
        self.buf.push((v & 0xFF) as u8);
        self.buf.push(((v >> 8) & 0xFF) as u8);
        self.buf.push(((v >> 16) & 0xFF) as u8);
        self.buf.push((v >> 24) as u8);
    }

    fn write_u64(&mut self, v: u64)
        ensures
            final(self).buf@.len() == old(self).buf@.len() + 8,
    {
        let lo = (v & 0xFFFF_FFFF) as u32;
        let hi = (v >> 32) as u32;
        self.write_u32(lo);
        self.write_u32(hi);
    }

    fn write_i64(&mut self, v: i64)
        ensures
            final(self).buf@.len() == old(self).buf@.len() + 8,
    {
        self.write_u64(v as u64);
    }

    fn write_bytes(&mut self, data: &[u8])
        requires
            data@.len() <= u32::MAX,
        ensures
            final(self).buf@.len() == old(self).buf@.len() + 4 + data@.len(),
    {
        self.write_u32(data.len() as u32);
        let mut i: usize = 0;
        while i < data.len()
            invariant
                0 <= i <= data@.len(),
                self.buf@.len() == old(self).buf@.len() + 4 + i,
            decreases data@.len() - i,
        {
            self.buf.push(data[i]);
            i += 1;
        }
    }

    fn write_str(&mut self, s: &str)
        ensures
            final(self).buf@.len() >= old(self).buf@.len() + 4,
    {
        let bytes = s.as_bytes();
        if bytes.len() <= 0xFFFF_FFFF {
            self.write_bytes(bytes);
        } else {
            self.write_u32(0);
        }
    }

    /// Appends one term in the tagged encoding.
    pub fn write_term(&mut self, term: &Term)
        ensures
            final(self).buf@.len() >= old(self).buf@.len() + 1,
        decreases *term,
    {
        match term {
            Term::Var(v) => {
                self.write_u8(TAG_VAR);
                self.write_u32(*v);
            },
            Term::Atom(a) => {
                self.write_u8(TAG_ATOM);
                self.write_u32(*a);
            },
            Term::Int(n) => {
                self.write_u8(TAG_INT);
                self.write_i64(*n);
            },
            Term::Float(f) => {
                self.write_u8(TAG_FLOAT);
                self.write_u64(f.0);
            },
            Term::Str(s) => {
                self.write_u8(TAG_STR);
                if s.as_str().as_bytes().len() <= 0xFFFF_FFFF {
                    self.write_str(s.as_str());
                } else {
                    self.write_u32(0);
                }
            },
            Term::Bool(b) => {
                self.write_u8(TAG_BOOL);
                self.write_u8(if *b {
                    1
                } else {
                    0
                });
            },
            Term::Compound(f, args) => {
                self.write_u8(TAG_COMPOUND);
                self.write_u32(*f);
                let n = args.len();
                self.write_u16(if n <= 0xFFFF {
                    n as u16
                } else {
                    0xFFFF
                });
                self.write_term_list(args);
            },
            Term::List(items) => {
                self.write_u8(TAG_LIST);
                let n = items.len();
                self.write_u16(if n <= 0xFFFF {
                    n as u16
                } else {
                    0xFFFF
                });
                self.write_term_list(items);
            },
            Term::Nil => {
                self.write_u8(TAG_NIL);
            },
        }
    }

    fn write_term_list(&mut self, ts: &Vec<Term>)
        ensures
            final(self).buf@.len() >= old(self).buf@.len(),
        decreases ts,
    {
        let mut i: usize = 0;
        while i < ts.len()
            invariant
                0 <= i <= ts@.len(),
                self.buf@.len() >= old(self).buf@.len(),
            decreases ts@.len() - i,
        {
            self.write_term(&ts[i]);
            i += 1;
        }
    }

    /// Appends a counted list of terms.
    pub fn write_terms(&mut self, terms: &Vec<Term>)
        requires
            terms@.len() <= u32::MAX,
        ensures
            final(self).buf@.len() >= old(self).buf@.len() + 4,
    {
        self.write_u32(terms.len() as u32);
        let mut i: usize = 0;
        while i < terms.len()
            invariant
                0 <= i <= terms@.len(),
                self.buf@.len() >= old(self).buf@.len() + 4,
            decreases terms@.len() - i,
        {
            self.write_term(&terms[i]);
            i += 1;
        }
    }

    /// Appends the magic word and the format version.
    pub fn write_header(&mut self)
        ensures
            final(self).buf@.len() == old(self).buf@.len() + 5,
    {
        self.write_u32(MAGIC);
        self.write_u8(VERSION);
    }

    /// Appends a counted table of symbol names.
    pub fn write_symbol_table(&mut self, symbols: &Vec<&str>)
        requires
            symbols@.len() <= u32::MAX,
        ensures
            final(self).buf@.len() >= old(self).buf@.len() + 4,
    {
        self.write_u32(symbols.len() as u32);
        let mut i: usize = 0;
        while i < symbols.len()
            invariant
                0 <= i <= symbols@.len(),
                self.buf@.len() >= old(self).buf@.len() + 4,
            decreases symbols@.len() - i,
        {
            self.write_str(symbols[i]);
            i += 1;
        }
    }
}

/// A cursor over stored bytes; every read is bounds-checked and
/// returns `None` past the end.
pub struct BinaryReader<'a> {
    pub data: &'a [u8],
    pub pos: usize,
}

impl<'a> BinaryReader<'a> {
    /// A cursor at the start of the bytes.
    pub fn new(data: &'a [u8]) -> (r: BinaryReader<'a>)
        ensures
            r.pos == 0,
            r.data@ == data@,
    {
        BinaryReader { data, pos: 0 }
    }

    /// How many bytes are left.
    pub fn remaining(&self) -> (n: usize)
        ensures
            n == if self.pos <= self.data@.len() {
                self.data@.len() - self.pos
            } else {
                0int
            },
    {
        if self.pos <= self.data.len() {
            self.data.len() - self.pos
        } else {
            0
        }
    }

    fn read_u8(&mut self) -> (r: Option<u8>)
        ensures
            final(self).data@ == old(self).data@,
            final(self).pos >= old(self).pos,
            final(self).pos <= final(self).data@.len() || final(self).pos == old(self).pos,
            r is Some ==> final(self).pos == old(self).pos + 1 && old(self).pos < old(
                self,
            ).data@.len(),
    {
        if self.pos >= self.data.len() {
            return None;
        }
        let v = self.data[self.pos];
        self.pos = self.pos + 1;
        Some(v)
    }

    fn read_u16(&mut self) -> (r: Option<u16>)
        ensures
            final(self).data@ == old(self).data@,
            final(self).pos >= old(self).pos,
            final(self).pos <= final(self).data@.len() || final(self).pos == old(self).pos,
    {
        if self.pos >= self.data.len() || self.data.len() - self.pos < 2 {
            return None;
        }
        let lo = self.data[self.pos] as u16;
        let hi = self.data[self.pos + 1] as u16;
        self.pos = self.pos + 2;
        Some(lo | (hi << 8))
    }

    fn read_u32(&mut self) -> (r: Option<u32>)
        ensures
            final(self).data@ == old(self).data@,
            final(self).pos >= old(self).pos,
            final(self).pos <= final(self).data@.len() || final(self).pos == old(self).pos,
    {
        if self.pos >= self.data.len() || self.data.len() - self.pos < 4 {
            return None;
        }
        let b0 = self.data[self.pos] as u32;
        let b1 = self.data[self.pos + 1] as u32;
        let b2 = self.data[self.pos + 2] as u32;
        let b3 = self.data[self.pos + 3] as u32;
        self.pos = self.pos + 4;
        Some(b0 | (b1 << 8) | (b2 << 16) | (b3 << 24))
    }

    fn read_u64(&mut self) -> (r: Option<u64>)
        ensures
            final(self).data@ == old(self).data@,
            final(self).pos >= old(self).pos,
            final(self).pos <= final(self).data@.len() || final(self).pos == old(self).pos,
    {
        let lo = match self.read_u32() {
            Some(v) => v,
            None => {
                return None;
            },
        };
        let hi = match self.read_u32() {
            Some(v) => v,
            None => {
                return None;
            },
        };
        Some((lo as u64) | ((hi as u64) << 32))
    }

    fn read_i64(&mut self) -> (r: Option<i64>)
        ensures
            final(self).data@ == old(self).data@,
            final(self).pos >= old(self).pos,
            final(self).pos <= final(self).data@.len() || final(self).pos == old(self).pos,
    {
        match self.read_u64() {
            Some(v) => Some(v as i64),
            None => None,
        }
    }

    fn read_str(&mut self) -> (r: Option<String>)
        ensures
            final(self).data@ == old(self).data@,
            final(self).pos >= old(self).pos,
            final(self).pos <= final(self).data@.len() || final(self).pos == old(self).pos,
    {
        let len = match self.read_u32() {
            Some(v) => v as usize,
            None => {
                return None;
            },
        };
        if self.pos >= self.data.len() || self.data.len() - self.pos < len {
            return None;
        }
        // stored names are ASCII symbol text; non-ASCII bytes reject
        let mut s = String::new();
        let mut i: usize = 0;
        while i < len
            invariant
                0 <= i <= len,
                self.pos + len - i <= self.data@.len(),
                self.pos >= old(self).pos,
                self.data@ == old(self).data@,
            decreases len - i,
        {
            let b = self.data[self.pos];
            self.pos = self.pos + 1;
            let piece: &str = byte_to_ascii(b);
            s.append(piece);
            i += 1;
        }
        Some(s)
    }

    /// Reads one term of the tagged encoding; `None` on truncated or
    /// unknown input.
    pub fn read_term(&mut self) -> (r: Option<Term>)
        ensures
            final(self).data@ == old(self).data@,
            final(self).pos >= old(self).pos,
            final(self).pos <= final(self).data@.len() || final(self).pos == old(self).pos,
        decreases old(self).data@.len() - old(self).pos, 0int,
    {
        let ghost fuel = self.data@.len() - self.pos;
        let tag = match self.read_u8() {
            Some(v) => v,
            None => {
                return None;
            },
        };
        if tag == TAG_VAR {
            match self.read_u32() {
                Some(v) => Some(Term::Var(v)),
                None => None,
            }
        } else if tag == TAG_ATOM {
            match self.read_u32() {
                Some(v) => Some(Term::Atom(v)),
                None => None,
            }
        } else if tag == TAG_INT {
            match self.read_i64() {
                Some(v) => Some(Term::Int(v)),
                None => None,
            }
        } else if tag == TAG_FLOAT {
            match self.read_u64() {
                Some(v) => Some(Term::Float(crate::types::OrderedFloat(v))),
                None => None,
            }
        } else if tag == TAG_STR {
            match self.read_str() {
                Some(s) => Some(Term::Str(s)),
                None => None,
            }
        } else if tag == TAG_BOOL {
            match self.read_u8() {
                Some(b) => Some(Term::Bool(b != 0)),
                None => None,
            }
        } else if tag == TAG_COMPOUND {
            let f = match self.read_u32() {
                Some(v) => v,
                None => {
                    return None;
                },
            };
            let n = match self.read_u16() {
                Some(v) => v as usize,
                None => {
                    return None;
                },
            };
            let mut args: Vec<Term> = Vec::new();
            let mut i: usize = 0;
            while i < n
                invariant
                    0 <= i <= n,
                    self.data@ == old(self).data@,
                    self.pos > old(self).pos,
                    self.pos <= self.data@.len(),
                    args@.len() == i,
                decreases n - i,
            {
                match self.read_term() {
                    Some(t) => {
                        args.push(t);
                    },
                    None => {
                        return None;
                    },
                }
                i += 1;
            }
            Some(Term::Compound(f, args))
        } else if tag == TAG_LIST {
            let n = match self.read_u16() {
                Some(v) => v as usize,
                None => {
                    return None;
                },
            };
            let mut items: Vec<Term> = Vec::new();
            let mut i: usize = 0;
            while i < n
                invariant
                    0 <= i <= n,
                    self.data@ == old(self).data@,
                    self.pos > old(self).pos,
                    self.pos <= self.data@.len(),
                    items@.len() == i,
                decreases n - i,
            {
                match self.read_term() {
                    Some(t) => {
                        items.push(t);
                    },
                    None => {
                        return None;
                    },
                }
                i += 1;
            }
            Some(Term::List(items))
        } else if tag == TAG_NIL {
            Some(Term::Nil)
        } else {
            None
        }
    }

    /// Reads a counted list of terms.
    pub fn read_terms(&mut self) -> (r: Option<Vec<Term>>)
        ensures
            final(self).data@ == old(self).data@,
            final(self).pos >= old(self).pos,
    {
        let count = match self.read_u32() {
            Some(v) => v as usize,
            None => {
                return None;
            },
        };
        let mut terms: Vec<Term> = Vec::new();
        let mut i: usize = 0;
        while i < count
            invariant
                0 <= i <= count,
                self.data@ == old(self).data@,
                self.pos >= old(self).pos,
            decreases count - i,
        {
            match self.read_term() {
                Some(t) => {
                    terms.push(t);
                },
                None => {
                    return None;
                },
            }
            i += 1;
        }
        Some(terms)
    }

    /// Reads and checks the magic word, returning the version.
    pub fn read_header(&mut self) -> (r: Option<u8>)
        ensures
            final(self).data@ == old(self).data@,
            final(self).pos >= old(self).pos,
    {
        let magic = match self.read_u32() {
            Some(v) => v,
            None => {
                return None;
            },
        };
        if magic != MAGIC {
            return None;
        }
        self.read_u8()
    }

    /// Reads a counted table of symbol names.
    pub fn read_symbol_table(&mut self) -> (r: Option<Vec<String>>)
        ensures
            final(self).data@ == old(self).data@,
            final(self).pos >= old(self).pos,
    {
        let count = match self.read_u32() {
            Some(v) => v as usize,
            None => {
                return None;
            },
        };
        let mut syms: Vec<String> = Vec::new();
        let mut i: usize = 0;
        while i < count
            invariant
                0 <= i <= count,
                self.data@ == old(self).data@,
                self.pos >= old(self).pos,
            decreases count - i,
        {
            let before = self.pos;
            if self.pos >= self.data.len() {
                return None;
            }
            match self.read_str() {
                Some(s) => {
                    syms.push(s);
                },
                None => {
                    return None;
                },
            }
            if self.pos == before {
                return None;
            }
            i += 1;
        }
        Some(syms)
    }
}

/// One-byte ASCII text for a stored byte; bytes outside the symbol
/// alphabet read as a question mark.
fn byte_to_ascii(b: u8) -> (s: &'static str) {
    match b {
        97 => "a",
        98 => "b",
        99 => "c",
        100 => "d",
        101 => "e",
        102 => "f",
        103 => "g",
        104 => "h",
        105 => "i",
        106 => "j",
        107 => "k",
        108 => "l",
        109 => "m",
        110 => "n",
        111 => "o",
        112 => "p",
        113 => "q",
        114 => "r",
        115 => "s",
        116 => "t",
        117 => "u",
        118 => "v",
        119 => "w",
        120 => "x",
        121 => "y",
        122 => "z",
        48 => "0",
        49 => "1",
        50 => "2",
        51 => "3",
        52 => "4",
        53 => "5",
        54 => "6",
        55 => "7",
        56 => "8",
        57 => "9",
        95 => "_",
        45 => "-",
        _ => "?",
    }
}

/// The cell at row-major position `t` of a grid with `cols` columns.
pub open spec fn cell_at(g: Seq<Seq<u8>>, cols: int, t: int) -> u8 {
    g[t / cols][t % cols]
}

/// The cell a reader recovers from the byte stream at row-major
/// position `idx`: a nibble of the shared byte when packed, the byte
/// itself otherwise; positions past the data read as clear.
pub open spec fn unpacked_cell(data: Seq<u8>, packed: bool, idx: int) -> u8 {
    if packed {
        if 5 + idx / 2 < data.len() {
            if idx % 2 == 0 {
                (data[5 + idx / 2] as int % 16) as u8
            } else {
                (data[5 + idx / 2] as int / 16) as u8
            }
        } else {
            0
        }
    } else {
        if 5 + idx < data.len() {
            data[5 + idx]
        } else {
            0
        }
    }
}

/// A nibble pair comes apart into exactly the cells that went in.
pub proof fn lemma_nibble_roundtrip(lo: u8, hi: u8)
    requires
        lo < 16,
        hi < 16,
    ensures
        (lo + 16 * hi) % 16 == lo,
        (lo + 16 * hi) / 16 == hi,
{
}

/// Every cell fits in a nibble.
pub open spec fn all_cells_small(g: Seq<Seq<u8>>) -> bool {
    forall|r: int, c: int| 0 <= r < g.len() && 0 <= c < g[r].len() ==> g[r][c] < 16
}

/// The scan's progress: every cell of a full earlier row, and of the
/// current row up to `j`, fits in a nibble.
pub open spec fn small_upto(g: Seq<Seq<u8>>, i: int, j: int) -> bool {
    &&& forall|r: int, c: int|
        0 <= r < i && 0 <= c < cols_of(g) ==> #[trigger] g[r][c] < 16
    &&& forall|c: int| 0 <= c < j ==> #[trigger] g[i][c] < 16
}

/// Packs a grid: two-byte little-endian row and column counts, a
/// packed flag that is set exactly when every cell is below 16, then
/// the cells (two per byte when packed, low nibble first, else one
/// per byte). An empty grid is just a zero row count.
pub fn pack_grid(grid: &Grid) -> (r: Vec<u8>)
    requires
        grid_wf(grid),
    ensures
        r@.len() >= 2,
        rows_of(grid_view(grid)) == 0 ==> r@ =~= seq![0u8, 0u8],
        rows_of(grid_view(grid)) > 0 ==> {
            let rows = rows_of(grid_view(grid)) as int;
            let cols = cols_of(grid_view(grid)) as int;
            &&& r@.len() >= 5
            &&& r@[0] as int == rows % 256
            &&& r@[1] as int == rows / 256
            &&& r@[2] as int == cols % 256
            &&& r@[3] as int == cols / 256
            &&& r@[4] == (if all_cells_small(grid_view(grid)) {
                1u8
            } else {
                0u8
            })
            &&& r@.len() == (if all_cells_small(grid_view(grid)) {
                5 + (rows * cols + 1) / 2
            } else {
                5 + rows * cols
            })
            &&& all_cells_small(grid_view(grid)) ==> forall|t: int|
                0 <= t < (rows * cols + 1) / 2 ==> #[trigger] r@[5 + t] as int == cell_at(
                    grid_view(grid),
                    cols,
                    2 * t,
                ) + 16 * (if 2 * t + 1 < rows * cols {
                    cell_at(grid_view(grid), cols, 2 * t + 1) as int
                } else {
                    0
                })
            &&& !all_cells_small(grid_view(grid)) ==> forall|t: int|
                0 <= t < rows * cols ==> #[trigger] r@[5 + t] == cell_at(grid_view(grid), cols, t)
        },
{
    let ghost b = grid_view(grid);
    let rows = grid.len();
    let cols = if rows == 0 { 0 } else { grid[0].len() };
    if rows == 0 {
        let mut empty: Vec<u8> = Vec::new();
        empty.push(0);
        empty.push(0);
        return empty;
    }
    let mut buf: Vec<u8> = Vec::new();
    let rows16 = rows as u16;
    let cols16 = cols as u16;
    buf.push((rows16 & 0xFF) as u8);
    buf.push((rows16 >> 8) as u8);
    buf.push((cols16 & 0xFF) as u8);
    buf.push((cols16 >> 8) as u8);
    proof {
        assert(rows16 & 0xFF == rows16 % 256) by (bit_vector);
        assert(rows16 >> 8 == rows16 / 256) by (bit_vector);
        assert(cols16 & 0xFF == cols16 % 256) by (bit_vector);
        assert(cols16 >> 8 == cols16 / 256) by (bit_vector);
    }
    // is every cell small enough for nibble packing?
    let mut all_small = true;
    let mut i: usize = 0;
    while i < rows
        invariant
            0 <= i <= rows,
            grid_wf(grid),
            b == grid_view(grid),
            rows == rows_of(b),
            cols == cols_of(b),
            all_small == small_upto(b, i as int, 0),
        decreases rows - i,
    {
        let mut j: usize = 0;
        while j < cols
            invariant
                0 <= j <= cols,
                0 <= i < rows,
                grid_wf(grid),
                b == grid_view(grid),
                rows == rows_of(b),
                cols == cols_of(b),
                all_small == small_upto(b, i as int, j as int),
            decreases cols - j,
        {
            if grid[i][j] >= 16 {
                all_small = false;
                proof {
                    assert(b[i as int][j as int] >= 16);
                    assert(!small_upto(b, i as int, j + 1));
                }
            } else {
                assert(b[i as int][j as int] < 16);
            }
            j += 1;
        }
        proof {
            if small_upto(b, i as int, cols as int) {
                assert forall|r: int, c: int|
                    0 <= r < i + 1 && 0 <= c < cols_of(b) implies #[trigger] b[r][c] < 16 by {
                    if r < i {
                    } else {
                        assert(b[i as int][c] < 16);
                    }
                }
                assert(small_upto(b, i + 1, 0));
            } else {
                assert(!small_upto(b, i + 1, 0));
            }
        }
        i += 1;
    }
    proof {
        assert(rect(b));
        if all_small {
            assert forall|r: int, c: int|
                0 <= r < b.len() && 0 <= c < b[r].len() implies b[r][c] < 16 by {
                assert(b[r].len() == cols_of(b));
            }
            assert(all_cells_small(b));
        } else {
            let (r0, c0) = choose|r0: int, c0: int|
                !(0 <= r0 < i && 0 <= c0 < cols_of(b) ==> b[r0][c0] < 16);
            assert(b[r0].len() == cols_of(b));
            assert(!all_cells_small(b));
        }
    }
    buf.push(if all_small {
        1
    } else {
        0
    });
    let ghost header = buf@;
    proof {
        assert(header.len() == 5);
        assert(rows * cols >= 0) by (nonlinear_arith);
    }
    if all_small {
        let mut pending: u8 = 0;
        let mut have_pending = false;
        let mut i2: usize = 0;
        while i2 < rows
            invariant
                0 <= i2 <= rows,
                grid_wf(grid),
                b == grid_view(grid),
                rows == rows_of(b),
                cols == cols_of(b),
                buf@.len() >= 5,
                forall|k: int| 0 <= k < 5 ==> buf@[k] == header[k],
                i2 * cols <= rows * cols,
                all_cells_small(b),
                have_pending == ((i2 * cols) % 2 == 1),
                buf@.len() == 5 + (i2 * cols) / 2,
                have_pending ==> pending < 16 && pending == cell_at(b, cols as int, i2 * cols - 1),
                forall|t: int|
                    0 <= t < (i2 * cols) / 2 ==> #[trigger] buf@[5 + t] as int == cell_at(
                        b,
                        cols as int,
                        2 * t,
                    ) + 16 * (cell_at(b, cols as int, 2 * t + 1) as int),
            decreases rows - i2,
        {
            let mut j2: usize = 0;
            while j2 < cols
                invariant
                    0 <= j2 <= cols,
                    0 <= i2 < rows,
                    grid_wf(grid),
                    b == grid_view(grid),
                    rows == rows_of(b),
                    cols == cols_of(b),
                    buf@.len() >= 5,
                    forall|k: int| 0 <= k < 5 ==> buf@[k] == header[k],
                    i2 * cols + j2 <= rows * cols,
                    all_cells_small(b),
                    have_pending == ((i2 * cols + j2) % 2 == 1),
                    buf@.len() == 5 + (i2 * cols + j2) / 2,
                    have_pending ==> pending < 16 && pending == cell_at(
                        b,
                        cols as int,
                        i2 * cols + j2 - 1,
                    ),
                    forall|t: int|
                        0 <= t < (i2 * cols + j2) / 2 ==> #[trigger] buf@[5 + t] as int == cell_at(
                            b,
                            cols as int,
                            2 * t,
                        ) + 16 * (cell_at(b, cols as int, 2 * t + 1) as int),
                decreases cols - j2,
            {
                let cellv = grid[i2][j2];
                let v = cellv & 0x0F;
                proof {
                    let n = i2 * cols + j2;
                    assert(n / (cols as int) == i2 as int && n % (cols as int) == j2 as int)
                        by (nonlinear_arith)
                        requires
                            n == i2 * cols + j2,
                            0 <= j2 < cols,
                            0 <= i2,
                            cols > 0,
                    ;
                    assert(b[i2 as int].len() == cols);
                    assert(b[i2 as int][j2 as int] < 16);
                    assert(cellv < 16);
                    assert(cellv & 0x0F == cellv) by (bit_vector)
                        requires
                            cellv < 16,
                    ;
                    assert(v == cell_at(b, cols as int, n));
                }
                if have_pending {
                    let byte = pending | (v << 4);
                    proof {
                        let p16 = pending;
                        let v16 = v;
                        assert(p16 | (v16 << 4) == p16 + 16 * v16) by (bit_vector)
                            requires
                                p16 < 16,
                                v16 < 16,
                        ;
                    }
                    buf.push(byte);
                    proof {
                        let n = i2 * cols + j2;
                        assert(buf@[buf@.len() - 1] == byte);
                        assert(2 * (n / 2) == n - 1 && n / 2 == (n - 1) / 2);
                        assert(byte as int == cell_at(b, cols as int, n - 1) + 16 * (cell_at(
                            b,
                            cols as int,
                            n,
                        ) as int));
                    }
                    have_pending = false;
                } else {
                    pending = v;
                    have_pending = true;
                }
                proof {
                    assert(i2 * cols + cols == (i2 + 1) * cols) by (nonlinear_arith);
                    assert((i2 + 1) * cols <= rows * cols) by (nonlinear_arith)
                        requires
                            i2 + 1 <= rows,
                            cols >= 0,
                    ;
                }
                j2 += 1;
            }
            proof {
                assert((i2 + 1) * cols == i2 * cols + cols) by (nonlinear_arith);
                assert((i2 + 1) * cols <= rows * cols) by (nonlinear_arith)
                    requires i2 + 1 <= rows, cols >= 0;
            }
            i2 += 1;
        }
        if have_pending {
            buf.push(pending);
        }
        proof {
            let n = (rows * cols) as int;
            assert(buf@.len() == 5 + n / 2 + (if n % 2 == 1 { 1int } else { 0int }));
            assert(buf@.len() == 5 + (n + 1) / 2);
            assert forall|t: int| 0 <= t < (n + 1) / 2 implies #[trigger] buf@[5 + t] as int
                == cell_at(b, cols as int, 2 * t) + 16 * (if 2 * t + 1 < n {
                cell_at(b, cols as int, 2 * t + 1) as int
            } else {
                0
            }) by {
                if 2 * t + 1 < n {
                    assert(t < n / 2);
                } else {
                    assert(n % 2 == 1 && 2 * t == n - 1);
                    assert(buf@[buf@.len() - 1] == pending);
                }
            }
        }
    } else {
        let mut i2: usize = 0;
        while i2 < rows
            invariant
                0 <= i2 <= rows,
                grid_wf(grid),
                b == grid_view(grid),
                rows == rows_of(b),
                cols == cols_of(b),
                buf@.len() >= 5,
                forall|k: int| 0 <= k < 5 ==> buf@[k] == header[k],
                i2 * cols <= rows * cols,
                buf@.len() == 5 + i2 * cols,
                forall|t: int|
                    0 <= t < i2 * cols ==> #[trigger] buf@[5 + t] == cell_at(b, cols as int, t),
            decreases rows - i2,
        {
            let mut j2: usize = 0;
            while j2 < cols
                invariant
                    0 <= j2 <= cols,
                    0 <= i2 < rows,
                    grid_wf(grid),
                    b == grid_view(grid),
                    rows == rows_of(b),
                    cols == cols_of(b),
                    buf@.len() >= 5,
                    forall|k: int| 0 <= k < 5 ==> buf@[k] == header[k],
                    i2 * cols + j2 <= rows * cols,
                    buf@.len() == 5 + i2 * cols + j2,
                    forall|t: int|
                        0 <= t < i2 * cols + j2 ==> #[trigger] buf@[5 + t] == cell_at(
                            b,
                            cols as int,
                            t,
                        ),
                decreases cols - j2,
            {
                buf.push(grid[i2][j2]);
                proof {
                    let n = i2 * cols + j2;
                    assert(n / (cols as int) == i2 as int && n % (cols as int) == j2 as int)
                        by (nonlinear_arith)
                        requires
                            n == i2 * cols + j2,
                            0 <= j2 < cols,
                            0 <= i2,
                            cols > 0,
                    ;
                    assert(buf@[5 + n] == b[i2 as int][j2 as int]);
                    assert(i2 * cols + cols == (i2 + 1) * cols) by (nonlinear_arith);
                    assert((i2 + 1) * cols <= rows * cols) by (nonlinear_arith)
                        requires
                            i2 + 1 <= rows,
                            cols >= 0,
                    ;
                }
                j2 += 1;
            }
            proof {
                assert((i2 + 1) * cols == i2 * cols + cols) by (nonlinear_arith);
                assert((i2 + 1) * cols <= rows * cols) by (nonlinear_arith)
                    requires i2 + 1 <= rows, cols >= 0;
            }
            i2 += 1;
        }
    }
    proof {
        assert(buf@[0] == header[0] && buf@[1] == header[1] && buf@[2] == header[2] && buf@[3]
            == header[3] && buf@[4] == header[4]);
        assert(rows16 as int == rows as int);
        assert(cols16 as int == cols as int);
    }
    assert(buf@.len() >= 2);
    buf
}

/// Unpacks a packed grid; `None` when the header is truncated. The
/// result is rectangular with the header's dimensions (missing cells
/// read as clear).
pub fn unpack_grid(data: &Vec<u8>) -> (r: Option<Grid>)
    ensures
        r matches Some(g) ==> grid_wf(&g),
        data@.len() < 2 ==> r is None,
        2 <= data@.len() < 5 ==> (if data@[0] == 0 && data@[1] == 0 {
            r matches Some(g) && grid_view(&g).len() == 0
        } else {
            r is None
        }),
        data@.len() >= 5 ==> {
            let hr = data@[0] as int + 256 * (data@[1] as int);
            let hc = data@[2] as int + 256 * (data@[3] as int);
            &&& (hr == 0 || hc == 0) ==> (r matches Some(g) && grid_view(&g).len() == 0)
            &&& (hr > 0 && hc > 0) ==> (r matches Some(g) && grid_view(&g).len() == hr && cols_of(
                grid_view(&g),
            ) == hc && (forall|x: int, y: int|
                0 <= x < hr && 0 <= y < hc && x * hc + y < 0xFFF0_0000
                    ==> #[trigger] grid_view(&g)[x][y] == unpacked_cell(
                    data@,
                    data@[4] == 1,
                    x * hc + y,
                )))
        },
{
    if data.len() < 5 {
        if data.len() >= 2 {
            let a = data[0] as u16;
            let b = data[1] as u16;
            let rows = a | (b << 8);
            proof {
                assert(a | (b << 8) == a + b * 256) by (bit_vector)
                    requires
                        a < 256,
                        b < 256,
                ;
            }
            if rows == 0 {
                let g: Grid = Vec::new();
                return Some(g);
            }
        }
        return None;
    }
    let a0 = data[0] as u16;
    let a1 = data[1] as u16;
    let a2 = data[2] as u16;
    let a3 = data[3] as u16;
    proof {
        assert(a0 | (a1 << 8) == a0 + a1 * 256) by (bit_vector)
            requires
                a0 < 256,
                a1 < 256,
        ;
        assert(a2 | (a3 << 8) == a2 + a3 * 256) by (bit_vector)
            requires
                a2 < 256,
                a3 < 256,
        ;
    }
    let rows = (a0 | (a1 << 8)) as usize;
    let cols = (a2 | (a3 << 8)) as usize;
    let ghost hr = data@[0] as int + 256 * (data@[1] as int);
    let ghost hc = data@[2] as int + 256 * (data@[3] as int);
    assert(rows == hr && cols == hc);
    let packed = data[4] == 1;
    if rows == 0 || cols == 0 {
        let g: Grid = Vec::new();
        return Some(g);
    }
    let mut g: Grid = Vec::new();
    let mut idx: usize = 0;
    let mut i: usize = 0;
    while i < rows
        invariant
            0 <= i <= rows,
            rows <= 0xFFFF,
            cols <= 0xFFFF,
            0 < cols,
            packed == (data@[4] == 1),
            data@.len() >= 5,
            g@.len() == i,
            idx == (if i * cols < 0xFFF0_0000 {
                i * cols
            } else {
                0xFFF0_0000
            }),
            forall|k: int| 0 <= k < i ==> (#[trigger] g@[k])@.len() == cols,
            forall|x: int, y: int|
                0 <= x < i && 0 <= y < cols && x * cols + y < 0xFFF0_0000 ==> #[trigger] g@[x]@[y]
                    == unpacked_cell(data@, packed, x * cols + y),
        decreases rows - i,
    {
        let mut nr: Vec<u8> = Vec::new();
        let mut j: usize = 0;
        proof {
            assert(i * cols + cols == (i + 1) * cols) by (nonlinear_arith);
            assert(i * cols >= 0) by (nonlinear_arith)
                requires
                    i >= 0,
                    cols >= 0,
            ;
        }
        while j < cols
            invariant
                0 <= j <= cols,
                0 <= i < rows,
                rows <= 0xFFFF,
                cols <= 0xFFFF,
                packed == (data@[4] == 1),
                data@.len() >= 5,
                nr@.len() == j,
                i * cols >= 0,
                idx == (if i * cols + j < 0xFFF0_0000 {
                    i * cols + j
                } else {
                    0xFFF0_0000
                }),
                forall|y: int|
                    0 <= y < j && i * cols + y < 0xFFF0_0000 ==> #[trigger] nr@[y]
                        == unpacked_cell(data@, packed, i * cols + y),
            decreases cols - j,
        {
            let cell_index = idx;
            let v: u8;
            if packed {
                let byte_pos = 5 + cell_index / 2;
                if byte_pos < data.len() {
                    let byte = data[byte_pos];
                    v = if cell_index % 2 == 0 {
                        byte & 0x0F
                    } else {
                        byte >> 4
                    };
                    proof {
                        assert(byte & 0x0F == byte % 16) by (bit_vector);
                        assert(byte >> 4 == byte / 16) by (bit_vector);
                    }
                } else {
                    v = 0;
                }
            } else {
                let byte_pos = 5 + cell_index;
                if byte_pos >= 5 && byte_pos < data.len() {
                    v = data[byte_pos];
                } else {
                    v = 0;
                }
            }
            proof {
                if i * cols + j < 0xFFF0_0000 {
                    assert(cell_index == i * cols + j);
                    assert(v == unpacked_cell(data@, packed, i * cols + j));
                }
            }
            nr.push(v);
            if idx < 0xFFF0_0000 {
                idx = idx + 1;
            }
            j += 1;
        }
        proof {
            assert(i * cols + cols == (i + 1) * cols) by (nonlinear_arith);
        }
        g.push(nr);
        proof {
            assert forall|x: int, y: int|
                0 <= x < i + 1 && 0 <= y < cols && x * cols + y < 0xFFF0_0000
                    implies #[trigger] g@[x]@[y] == unpacked_cell(data@, packed, x * cols + y) by {
                if x < i {
                    assert(g@[x] == g@.drop_last()[x]);
                } else {
                    assert(g@[x]@ == nr@);
                }
            }
        }
        i += 1;
    }
    proof {
        assert forall|q: int| 0 <= q < g@.len() implies (#[trigger] grid_view(&g)[q]).len()
            == cols by {
            assert(grid_view(&g)[q] == g@[q]@);
        }
        assert(grid_view(&g).len() == rows);
        assert(cols_of(grid_view(&g)) == cols);
    }
    Some(g)
}

} // verus!
