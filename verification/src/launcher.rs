//! The launcher's state: the query, the ranked results, the highlighted row, and
//! whether it is done. Drawing it and reading keys is the caller's; starting the
//! chosen entry too.

use vstd::prelude::*;

use crate::entries::{search_spec, Catalog};

verus! {

/// The launcher's settings file.
#[derive(Clone, Debug, PartialEq, Eq)]
pub struct Config {
    /// Surface size in logical pixels, centered on the output.
    pub width: u32,
    pub height: u32,
    /// Command that runs `Terminal=true` entries. The application's command line is
    /// appended.
    pub terminal: String,
}

impl Default for Config {
    fn default() -> (r: Config)
        ensures
            r.width == 640,
            r.height == 400,
            r.terminal@ == "xdg-terminal-exec"@,
    {
        Config { width: 640, height: 400, terminal: "xdg-terminal-exec".to_owned() }
    }
}

impl crate::config::File for Config {
    const NAME: &'static str = "launcher";
}

/// The row a request for `row` highlights: clamped to the results, no wrap-around.
pub open spec fn clamp_row(row: int, len: nat) -> int {
    if len == 0 {
        0
    } else if row < len {
        row
    } else {
        len - 1
    }
}

pub struct Launcher {
    catalog: Catalog,
    query: String,
    /// Indices into the catalog, current ranking for `query`.
    results: Vec<usize>,
    /// Row in `results`.
    selected: usize,
    /// Scroll the selected row into view this frame. Set by keyboard navigation and
    /// query changes.
    reveal: bool,
    error: Option<String>,
    done: bool,
}

/// The keys the launcher reads in one frame.
#[derive(Clone, Copy, Debug)]
pub struct Keys {
    pub escape: bool,
    /// Arrow down or Ctrl+N.
    pub down: bool,
    /// Arrow up or Ctrl+P.
    pub up: bool,
    pub enter: bool,
}

pub struct LauncherView {
    pub entries: Seq<crate::entries::Entry>,
    /// The catalog's terminal command.
    pub terminal: Seq<char>,
    pub query: Seq<char>,
    pub results: Seq<usize>,
    pub selected: nat,
    pub reveal: bool,
    pub error: Option<Seq<char>>,
    pub done: bool,
}

impl View for Launcher {
    type V = LauncherView;

    closed spec fn view(&self) -> LauncherView {
        LauncherView {
            entries: self.catalog@.0,
            terminal: self.catalog@.1,
            query: self.query@,
            results: self.results@,
            selected: self.selected as nat,
            reveal: self.reveal,
            error: match &self.error {
                Some(e) => Some(e@),
                None => None,
            },
            done: self.done,
        }
    }
}

/// The highlight is on a result row, or on the first row when there are none.
pub open spec fn on_a_row(v: LauncherView) -> bool {
    v.selected == 0 || v.selected < v.results.len()
}

impl Launcher {
    /// A launcher over `catalog` with an empty query: every entry listed.
    pub fn new(catalog: Catalog) -> (r: Launcher)
        ensures
            r@.entries == catalog@.0,
            r@.terminal == catalog@.1,
            r@.query == Seq::<char>::empty(),
            r@.results == search_spec(Seq::<char>::empty(), catalog@.0),
            r@.selected == 0,
            !r@.reveal,
            r@.error is None,
            !r@.done,
            on_a_row(r@),
    {
        let mut catalog = catalog;
        let query = String::new();
        let results = catalog.search(query.as_str());
        Launcher { catalog, query, results, selected: 0, reveal: false, error: None, done: false }
    }

    /// Moves the highlight, clamped to the results. No wrap-around.
    pub fn select(&mut self, row: usize)
        ensures
            final(self)@ == (LauncherView {
                selected: clamp_row(row as int, old(self)@.results.len()) as nat,
                reveal: true,
                ..old(self)@
            }),
            on_a_row(final(self)@),
    {
        let last = if self.results.len() > 0 {
            self.results.len() - 1
        } else {
            0
        };
        self.selected = if row < last {
            row
        } else {
            last
        };
        self.reveal = true;
    }

    /// The query text changed: ranks the catalog for it and highlights the first row.
    pub fn set_query(&mut self, query: String)
        ensures
            final(self)@.entries == old(self)@.entries,
            final(self)@.terminal == old(self)@.terminal,
            final(self)@.query == query@,
            final(self)@.results == search_spec(query@, old(self)@.entries),
            final(self)@.selected == 0,
            final(self)@.reveal,
            final(self)@.error == old(self)@.error,
            final(self)@.done == old(self)@.done,
            on_a_row(final(self)@),
    {
        self.results = self.catalog.search(query.as_str());
        self.query = query;
        self.select(0);
    }

    /// Reads this frame's keys: Escape closes, down and up move the highlight, Enter
    /// returns the catalog index of the highlighted entry to start.
    pub fn handle_keys(&mut self, keys: Keys) -> (r: Option<usize>)
        ensures
            final(self)@.entries == old(self)@.entries,
            final(self)@.terminal == old(self)@.terminal,
            final(self)@.query == old(self)@.query,
            final(self)@.results == old(self)@.results,
            final(self)@.error == old(self)@.error,
            final(self)@.done == (old(self)@.done || keys.escape),
            on_a_row(old(self)@) ==> on_a_row(final(self)@),
            ({
                let len = old(self)@.results.len();
                let s0 = old(self)@.selected as int;
                let s1 = if keys.down { clamp_row(s0 + 1, len) } else { s0 };
                let s2 = if keys.up { clamp_row(if s1 > 0 { s1 - 1 } else { 0 }, len) } else { s1 };
                &&& final(self)@.selected == s2
                &&& final(self)@.reveal == (old(self)@.reveal || keys.down || keys.up)
                &&& r == if keys.enter && 0 <= s2 < len { Some(old(self)@.results[s2]) } else { None }
            }),
    {
        if keys.escape {
            self.done = true;
        }
        if keys.down {
            // Past the last row the clamp gives the same row either way.
            let next = if self.selected < self.results.len() {
                self.selected + 1
            } else {
                self.selected
            };
            self.select(next);
        }
        if keys.up {
            let row = if self.selected > 0 {
                self.selected - 1
            } else {
                0
            };
            self.select(row);
        }
        if keys.enter {
            self.chosen(self.selected)
        } else {
            None
        }
    }

    /// The catalog index shown at `row`, if any: what a click or Enter starts.
    pub fn chosen(&self, row: usize) -> (r: Option<usize>)
        ensures
            r == if row < self@.results.len() {
                Some(self@.results[row as int])
            } else {
                None
            },
    {
        if row < self.results.len() {
            Some(self.results[row])
        } else {
            None
        }
    }

    /// Starting the chosen entry succeeded (the launcher is done) or failed with the
    /// given message (shown under the query).
    pub fn launched(&mut self, outcome: Result<(), String>)
        ensures
            final(self)@ == match outcome {
                Ok(_) => LauncherView { done: true, ..old(self)@ },
                Err(message) => LauncherView { error: Some(message@), ..old(self)@ },
            },
    {
        match outcome {
            Ok(()) => self.done = true,
            Err(message) => self.error = Some(message),
        }
    }

    /// The catalog.
    pub fn catalog(&self) -> (r: &Catalog)
        ensures
            r@ == (self@.entries, self@.terminal),
    {
        &self.catalog
    }

    /// The query text.
    pub fn query(&self) -> (r: &str)
        ensures
            r@ == self@.query,
    {
        self.query.as_str()
    }

    /// Current ranking: catalog indices.
    pub fn results(&self) -> (r: &Vec<usize>)
        ensures
            r@ == self@.results,
    {
        &self.results
    }

    /// The highlighted row.
    pub fn selected(&self) -> (r: usize)
        ensures
            r == self@.selected,
    {
        self.selected
    }

    /// Whether to scroll the highlighted row into view; cleared by taking it.
    pub fn take_reveal(&mut self) -> (r: bool)
        ensures
            r == old(self)@.reveal,
            final(self)@ == (LauncherView { reveal: false, ..old(self)@ }),
    {
        let r = self.reveal;
        self.reveal = false;
        r
    }

    /// The last error message, if starting an entry failed.
    pub fn error(&self) -> (r: &Option<String>)
        ensures
            match r {
                Some(e) => self@.error == Some(e@),
                None => self@.error is None,
            },
    {
        &self.error
    }

    /// Whether the launcher is done (an entry started, or dismissed).
    pub fn wants_exit(&self) -> (r: bool)
        ensures
            r == self@.done,
    {
        self.done
    }
}

} // verus!
