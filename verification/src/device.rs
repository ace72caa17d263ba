//! The command line's words: the device to run the programs on, and the update period.

use vstd::prelude::*;
use vstd::string::*;
use crate::ansi::chars_of;
use crate::numbers::{ParseIntError, parse_radix, parse_radix_spec, lemma_scan_bound};

verus! {

/// A board to run programs on: the path of its serial port, and the baud rate.
pub struct BoardConfig {
    pub path: String,
    pub baud_rate: u32,
}

/// The baud rate used when none is given.
pub const DEFAULT_BAUD_RATE: u32 = 1_500_000;

/// Where the programs run.
pub enum DeviceType {
    Board(BoardConfig),
    Sim,
    SimWithRpc,
}

/// A device seen through the characters of a board's path.
pub enum DeviceView {
    Board(Seq<char>, u32),
    Sim,
    SimWithRpc,
}

impl View for DeviceType {
    type V = DeviceView;

    open spec fn view(&self) -> DeviceView {
        match self {
            DeviceType::Board(c) => DeviceView::Board(c.path@, c.baud_rate),
            DeviceType::Sim => DeviceView::Sim,
            DeviceType::SimWithRpc => DeviceView::SimWithRpc,
        }
    }
}

/// The index of the first `ch` in `s` from `from` on, or the length of `s`.
pub open spec fn find_from(s: Seq<char>, from: nat, ch: char) -> nat
    decreases s.len() - from,
{
    if from >= s.len() {
        s.len()
    } else if s[from as int] == ch {
        from
    } else {
        find_from(s, from + 1, ch)
    }
}

/// The text of `s` up to its first `ch`.
pub open spec fn field(s: Seq<char>, ch: char) -> Seq<char> {
    s.take(find_from(s, 0, ch) as int)
}

/// The text of `s` after its first `ch`, if it has one.
pub open spec fn after(s: Seq<char>, ch: char) -> Option<Seq<char>> {
    let k = find_from(s, 0, ch);
    if k < s.len() {
        Some(s.skip(k + 1int))
    } else {
        None
    }
}

/// The board a `board=` word names: its path, up to a `:`, and the baud rate after it, or
/// nothing when the rate is not a number.
pub open spec fn board_word(s: Seq<char>) -> Option<(Seq<char>, u32)> {
    let config = field(s.skip(6), '=');
    let path = field(config, ':');
    match after(config, ':') {
        None => Some((path, DEFAULT_BAUD_RATE)),
        Some(rest) => match parse_radix_spec(field(rest, ':'), 10, u32::MAX as nat) {
            Ok(b) => Some((path, b as u32)),
            Err(_) => None,
        },
    }
}

/// What a device word names, given the board used by default.
pub open spec fn device_word(s: Seq<char>, default_board: (Seq<char>, u32)) -> Result<DeviceView, Seq<char>> {
    if s == "board"@ {
        Ok(DeviceView::Board(default_board.0, default_board.1))
    } else if s == "sim"@ {
        Ok(DeviceView::Sim)
    } else if s == "sim-rpc"@ {
        Ok(DeviceView::SimWithRpc)
    } else if s.len() >= 6 && s.take(6) == "board="@ {
        match board_word(s) {
            Some((p, b)) => Ok(DeviceView::Board(p, b)),
            None => Err(Seq::empty()),
        }
    } else {
        Err("Could not parse device type!"@)
    }
}

/// Whether a device word can be read: `websocket` is not supported yet, and a baud rate must
/// be a number.
pub open spec fn device_word_readable(s: Seq<char>) -> bool {
    &&& s != "websocket"@
    &&& (s.len() >= 6 && s.take(6) == "board="@ && s != "board"@ ==> board_word(s) is Some)
}

/// The index of the first `ch` in `c` from `from` on, or the length of `c`.
fn find_char(c: &Vec<char>, from: usize, to: usize, ch: char) -> (k: usize)
    requires
        from <= to <= c.len(),
    ensures
        k == from + find_from(c@.subrange(from as int, to as int), 0, ch),
        from <= k <= to,
{
    let ghost s = c@.subrange(from as int, to as int);
    let mut i = from;
    while i < to
        invariant
            from <= i <= to <= c.len(),
            s == c@.subrange(from as int, to as int),
            find_from(s, 0, ch) == find_from(s, (i - from) as nat, ch),
        decreases to - i,
    {
        if c[i] == ch {
            return i;
        }
        i = i + 1;
    }
    i
}

/// The characters of `c` from `from` to `to`.
fn chars_between(c: &Vec<char>, from: usize, to: usize) -> (v: Vec<char>)
    requires
        from <= to <= c.len(),
    ensures
        v@ == c@.subrange(from as int, to as int),
{
    let mut v: Vec<char> = Vec::new();
    let mut i = from;
    while i < to
        invariant
            from <= i <= to <= c.len(),
            v@ == c@.subrange(from as int, i as int),
        decreases to - i,
    {
        v.push(c[i]);
        i = i + 1;
        assert(v@ =~= c@.subrange(from as int, i as int));
    }
    v
}

/// The board a `board=` word names, read from its characters `c` (those of `s`).
fn read_board(c: &Vec<char>, s: &str) -> (r: Option<BoardConfig>)
    requires
        c@ == s@,
        c.len() >= 6,
        c@.take(6) == "board="@,
    ensures
        match board_word(c@) {
            Some((p, b)) => r matches Some(config) && config.path@ == p && config.baud_rate == b,
            None => r is None,
        },
{
    let e = find_char(c, 6, c.len(), '=');
    let ghost config = c@.skip(6).take(find_from(c@.skip(6), 0, '=') as int);
    proof {
        assert(c@.subrange(6, c.len() as int) =~= c@.skip(6));
        assert(config =~= c@.subrange(6, e as int));
    }
    let k = find_char(c, 6, e, ':');
    proof {
        assert(c@.subrange(6, e as int) =~= config);
    }
    let path = s.substring_char(6, k).to_owned();
    proof {
        assert(path@ =~= field(config, ':'));
    }
    if k < e {
        let m = find_char(c, k + 1, e, ':');
        let rate = chars_between(c, k + 1, m);
        proof {
            let rest = config.skip(find_from(config, 0, ':') + 1int);
            assert(rest =~= c@.subrange(k + 1, e as int));
            assert(rate@ =~= field(rest, ':'));
            let fr = field(rest, ':');
            if fr.len() > 0 && fr[0] == '+' && fr.len() > 1 {
                lemma_scan_bound(fr, 1, 0, u32::MAX as nat, 10);
            } else {
                lemma_scan_bound(fr, 0, 0, u32::MAX as nat, 10);
            }
        }
        match parse_radix(&rate, 10, 0xffff_ffff) {
            Ok(b) => Some(BoardConfig { path, baud_rate: b as u32 }),
            Err(_) => None,
        }
    } else {
        Some(BoardConfig { path, baud_rate: DEFAULT_BAUD_RATE })
    }
}

/// What keeps a device word from being read.
#[derive(Debug, Clone, Copy, PartialEq, Eq, Structural)]
pub enum DeviceWordProblem {
    /// `websocket` names a device that is not supported yet.
    NotSupported,
    /// The baud rate after the board's path is not a number.
    BadBaudRate,
}

impl DeviceType {
    /// What keeps a device word from being read, if anything: the cases `from_str` does not
    /// take.
    pub fn problem(s: &str) -> (r: Option<DeviceWordProblem>)
        ensures
            r is None <==> device_word_readable(s@),
            r == Some(DeviceWordProblem::NotSupported) <==> s@ == "websocket"@,
    {
        proof {
            reveal_strlit("websocket");
            reveal_strlit("board");
            reveal_strlit("board=");
        }
        let c = chars_of(s);
        if equal_chars(&c, "websocket") {
            return Some(DeviceWordProblem::NotSupported);
        }
        if c.len() >= 6 && starts_board(&c) {
            match read_board(&c, s) {
                Some(_) => None,
                None => Some(DeviceWordProblem::BadBaudRate),
            }
        } else {
            None
        }
    }
}

impl BoardConfig {
    /// A copy of the configuration.
    pub fn duplicate(&self) -> (c: BoardConfig)
        ensures
            c.path@ == self.path@,
            c.baud_rate == self.baud_rate,
    {
        BoardConfig { path: self.path.clone(), baud_rate: self.baud_rate }
    }
}

impl DeviceType {
    /// Reads a device word: `board` (the board used by default), `sim`, `sim-rpc`, or
    /// `board=` followed by a path and, after a `:`, a baud rate.
    pub fn from_str(s: &str, default_board: &BoardConfig) -> (r: Result<DeviceType, &'static str>)
        requires
            device_word_readable(s@),
        ensures
            match device_word(s@, (default_board.path@, default_board.baud_rate)) {
                Ok(v) => r matches Ok(d) && d@ == v,
                Err(m) => r matches Err(e) && e@ == m,
            },
    {
        proof {
            reveal_strlit("board");
            reveal_strlit("sim");
            reveal_strlit("sim-rpc");
            reveal_strlit("board=");
            reveal_strlit("websocket");
        }
        let c = chars_of(s);
        let board_lit = "board";
        let sim_lit = "sim";
        let rpc_lit = "sim-rpc";
        if equal_chars(&c, board_lit) {
            return Ok(DeviceType::Board(default_board.duplicate()));
        }
        if equal_chars(&c, sim_lit) {
            return Ok(DeviceType::Sim);
        }
        if equal_chars(&c, rpc_lit) {
            return Ok(DeviceType::SimWithRpc);
        }
        if c.len() >= 6 && starts_board(&c) {
            match read_board(&c, s) {
                Some(config) => {
                    return Ok(DeviceType::Board(config));
                },
                None => {
                    return Err("");
                },
            }
        }
        Err("Could not parse device type!")
    }

    /// How the device is named: plainly, or, in the alternate form, where the programs run.
    pub fn describe(&self, alternate: bool) -> (s: String)
        ensures
            s@ == describe_spec(self@, alternate),
    {
        if alternate {
            match self {
                DeviceType::Board(c) => String::from_str("on a board: ").concat(c.path.as_str()),
                DeviceType::Sim => String::from_str("locally"),
                DeviceType::SimWithRpc => String::from_str("locally via rpc"),
            }
        } else {
            match self {
                DeviceType::Board(_) => String::from_str("Board"),
                DeviceType::Sim => String::from_str("Simulator"),
                DeviceType::SimWithRpc => String::from_str("Simulator With RPC"),
            }
        }
    }

    /// The name of a session on the device, shown as the title of the tabs bar.
    pub fn session_name(&self) -> (s: String)
        ensures
            s@ == "UTP LC-3 Simulator (running "@ + describe_spec(self@, true) + ")"@,
    {
        String::from_str("UTP LC-3 Simulator (running ").concat(self.describe(true).as_str()).concat(
            ")",
        )
    }
}

/// How a device is named.
pub open spec fn describe_spec(d: DeviceView, alternate: bool) -> Seq<char> {
    if alternate {
        match d {
            DeviceView::Board(p, _) => "on a board: "@ + p,
            DeviceView::Sim => "locally"@,
            DeviceView::SimWithRpc => "locally via rpc"@,
        }
    } else {
        match d {
            DeviceView::Board(_, _) => "Board"@,
            DeviceView::Sim => "Simulator"@,
            DeviceView::SimWithRpc => "Simulator With RPC"@,
        }
    }
}

/// Whether the characters of `c` are those of `s`.
fn equal_chars(c: &Vec<char>, s: &str) -> (b: bool)
    ensures
        b == (c@ == s@),
{
    let n = s.unicode_len();
    if n != c.len() {
        return false;
    }
    let mut i: usize = 0;
    while i < n
        invariant
            n == s@.len() == c.len(),
            i <= n,
            forall|j: int| 0 <= j < i ==> c@[j] == s@[j],
        decreases n - i,
    {
        if c[i] != s.get_char(i) {
            return false;
        }
        i = i + 1;
    }
    assert(c@ =~= s@);
    true
}

/// Whether `c` starts with `board=`.
fn starts_board(c: &Vec<char>) -> (b: bool)
    requires
        c.len() >= 6,
    ensures
        b == (c@.take(6) == "board="@),
{
    proof {
        reveal_strlit("board=");
    }
    let b = c[0] == 'b' && c[1] == 'o' && c[2] == 'a' && c[3] == 'r' && c[4] == 'd' && c[5] == '=';
    if b {
        assert(c@.take(6) =~= "board="@);
    } else {
        proof {
            if c@.take(6) == "board="@ {
                assert(c@.take(6)[0] == c@[0] && c@.take(6)[1] == c@[1] && c@.take(6)[2] == c@[2]);
                assert(c@.take(6)[3] == c@[3] && c@.take(6)[4] == c@[4] && c@.take(6)[5] == c@[5]);
                assert(false);
            }
        }
    }
    b
}

/// An update period in milliseconds.
#[derive(Debug, Clone, Copy, PartialEq, Eq, Structural)]
pub struct TimeInMs(pub u64);

impl TimeInMs {
    /// Reads a number of milliseconds.
    pub fn from_str(s: &str) -> (r: Result<TimeInMs, ParseIntError>)
        ensures
            match parse_radix_spec(s@, 10, u64::MAX as nat) {
                Ok(v) => r == Ok::<TimeInMs, ParseIntError>(TimeInMs(v as u64)),
                Err(e) => r == Err::<TimeInMs, ParseIntError>(e),
            },
    {
        let c = chars_of(s);
        match parse_radix(&c, 10, u64::MAX) {
            Ok(v) => Ok(TimeInMs(v)),
            Err(e) => Err(e),
        }
    }

    /// The milliseconds.
    pub fn millis(self) -> (m: u64)
        ensures
            m == self.0,
    {
        self.0
    }
}

} // verus!
