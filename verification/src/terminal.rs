use vstd::prelude::*;

verus! {

/// The size of the pseudo terminal requested on the remote side.
#[derive(Clone, Copy, Debug)]
pub struct TerminalSize {
    pub cols: u32,
    pub rows: u32,
}

/// The size the local terminal reports (the `TIOCGWINSZ` query).
#[derive(Clone, Copy, Debug)]
pub struct WindowSize {
    pub ws_col: u16,
    pub ws_row: u16,
}

/// The size used when the local terminal's size is unknown: 200 by 60.
pub fn get_default_terminal_size() -> (r: TerminalSize)
    ensures
        r.cols == 200,
        r.rows == 60,
{
    TerminalSize { cols: 200, rows: 60 }
}

/// The size to request: the local terminal's when the query succeeded,
/// else the default.
pub fn get_terminal_size(reported: Option<WindowSize>) -> (r: TerminalSize)
    ensures
        match reported {
            Some(w) => r.cols == w.ws_col as u32 && r.rows == w.ws_row as u32,
            None => r.cols == 200 && r.rows == 60,
        },
{
    match reported {
        Some(w) => TerminalSize { cols: w.ws_col as u32, rows: w.ws_row as u32 },
        None => get_default_terminal_size(),
    }
}

} // verus!
