//! Where the program to load comes from: a file, source given inline, or a URL of a memory
//! dump or of assembly source.

use vstd::prelude::*;
use vstd::string::*;
use crate::ansi::chars_of;
use crate::numbers::{decimal, push_decimal};

verus! {

/// A program source, as the user names it.
pub enum ProgramSource {
    /// A file; assembly files are recognised by their `asm` extension.
    FilePath(String),
    /// Assembly source given inline.
    ImmediateSource(String),
    /// A URL to fetch a memory dump from.
    MemoryDumpUrl(String),
    /// A URL to fetch assembly source from.
    AssemblyUrl(String),
}

/// A program source seen through the characters it holds.
pub enum SourceView {
    FilePath(Seq<char>),
    ImmediateSource(Seq<char>),
    MemoryDumpUrl(Seq<char>),
    AssemblyUrl(Seq<char>),
}

impl View for ProgramSource {
    type V = SourceView;

    open spec fn view(&self) -> SourceView {
        match self {
            ProgramSource::FilePath(s) => SourceView::FilePath(s@),
            ProgramSource::ImmediateSource(s) => SourceView::ImmediateSource(s@),
            ProgramSource::MemoryDumpUrl(s) => SourceView::MemoryDumpUrl(s@),
            ProgramSource::AssemblyUrl(s) => SourceView::AssemblyUrl(s@),
        }
    }
}

/// Whether `s` starts with `p`.
pub open spec fn starts_with(s: Seq<char>, p: Seq<char>) -> bool {
    p.len() <= s.len() && s.take(p.len() as int) == p
}

/// `s` with every leading repetition of the non-empty `p` removed.
pub open spec fn strip_all(s: Seq<char>, p: Seq<char>) -> Seq<char>
    decreases s.len(),
{
    if p.len() > 0 && starts_with(s, p) {
        strip_all(s.skip(p.len() as int), p)
    } else {
        s
    }
}

/// What parsing a program source from its written form gives.
pub open spec fn parse_source(s: Seq<char>) -> Result<SourceView, Seq<char>> {
    if s.len() == 0 {
        Err("Empty program source!"@)
    } else if (starts_with(s, "mem:"@) || starts_with(s, "asm:"@) || starts_with(s, "imm:"@))
        && s.len() == 4 {
        Err("Missing URL!"@)
    } else if starts_with(s, "mem:"@) {
        Ok(SourceView::MemoryDumpUrl(strip_all(s, "mem:"@)))
    } else if starts_with(s, "asm:"@) {
        Ok(SourceView::AssemblyUrl(strip_all(s, "asm:"@)))
    } else if starts_with(s, "imm:"@) {
        Ok(SourceView::ImmediateSource(strip_all(s, "imm:"@)))
    } else {
        Ok(SourceView::FilePath(s))
    }
}

/// The last component of a path, as `std::path::Path::file_name` finds it.
pub uninterp spec fn path_file_name(p: Seq<char>) -> Option<Seq<char>>;

/// The extension of a path, as `std::path::Path::extension` finds it.
pub uninterp spec fn path_extension(p: Seq<char>) -> Option<Seq<char>>;

/// Calls `std::path::Path::file_name` on the path written as `p`. Its result is only named:
/// the contract says nothing of which component it is.
#[verifier::external_body]
fn file_name_of(p: &str) -> (r: Option<String>)
    ensures
        r.deep_view() == path_file_name(p@),
{
    std::path::Path::new(p).file_name().and_then(|f| f.to_str()).map(|f| f.to_string())
}

/// Calls `std::path::Path::extension` on the path written as `p`. Its result is only named.
#[verifier::external_body]
fn extension_of(p: &str) -> (r: Option<String>)
    ensures
        r.deep_view() == path_extension(p@),
{
    std::path::Path::new(p).extension().and_then(|e| e.to_str()).map(|e| e.to_string())
}

/// How the file at a path is named when shown: by the last component of its path.
pub open spec fn file_display(p: Seq<char>) -> Seq<char> {
    match path_file_name(p) {
        Some(f) => f,
        None => "<unprintable>"@,
    }
}

/// The name under which the file at `path` is shown.
pub fn file_display_name(path: &str) -> (s: String)
    ensures
        s@ == file_display(path@),
{
    match file_name_of(path) {
        Some(f) => f,
        None => "<unprintable>".to_owned(),
    }
}

/// How a program source is shown.
pub open spec fn display_source(v: SourceView) -> Seq<char> {
    match v {
        SourceView::FilePath(p) => file_display(p),
        SourceView::ImmediateSource(_) => "<immediate>"@,
        SourceView::MemoryDumpUrl(u) => "mem:"@ + u,
        SourceView::AssemblyUrl(u) => "asm:"@ + u,
    }
}

/// Whether the characters of `c` from index `from` start with those of `p`.
fn has_prefix_at(c: &Vec<char>, from: usize, p: &str) -> (b: bool)
    requires
        from <= c.len(),
    ensures
        b == starts_with(c@.skip(from as int), p@),
{
    let pc = chars_of(p);
    if pc.len() > c.len() - from {
        return false;
    }
    let mut k: usize = 0;
    while k < pc.len()
        invariant
            k <= pc.len(),
            pc.len() <= c.len() - from,
            pc@ == p@,
            forall|j: int| 0 <= j < k ==> c@[from + j] == pc@[j],
        decreases pc.len() - k,
    {
        if c[from + k] != pc[k] {
            assert(c@.skip(from as int).take(pc.len() as int)[k as int] != p@[k as int]);
            return false;
        }
        k = k + 1;
    }
    assert(c@.skip(from as int).take(pc.len() as int) =~= p@);
    true
}

/// The rest of `s` (whose characters are `c`) after every leading repetition of `p`.
fn strip_prefixes(s: &str, c: &Vec<char>, p: &str) -> (r: String)
    requires
        c@ == s@,
        p@.len() > 0,
    ensures
        r@ == strip_all(s@, p@),
{
    let n = c.len();
    let plen = p.unicode_len();
    let mut k: usize = 0;
    assert(c@.skip(0) =~= c@);
    while has_prefix_at(c, k, p)
        invariant
            k <= n,
            n == c.len(),
            plen == p@.len(),
            plen > 0,
            strip_all(c@.skip(k as int), p@) == strip_all(c@, p@),
        decreases n - k,
    {
        assert(c@.skip(k as int).skip(plen as int) =~= c@.skip(k + plen));
        k = k + plen;
    }
    assert(c@.skip(k as int) =~= c@.subrange(k as int, n as int));
    s.substring_char(k, n).to_owned()
}

impl ProgramSource {
    /// Reads a program source: `mem:URL`, `asm:URL` or `imm:SOURCE`, or else a file path.
    pub fn from_str(src: &str) -> (r: Result<ProgramSource, &'static str>)
        ensures
            match parse_source(src@) {
                Ok(v) => r matches Ok(ps) && ps@ == v,
                Err(e) => r matches Err(msg) && msg@ == e,
            },
    {
        let c = chars_of(src);
        if c.len() == 0 {
            return Err("Empty program source!");
        }
        proof {
            reveal_strlit("mem:");
            reveal_strlit("asm:");
            reveal_strlit("imm:");
        }
        let mem = has_prefix_at(&c, 0, "mem:");
        let assembly = has_prefix_at(&c, 0, "asm:");
        let imm = has_prefix_at(&c, 0, "imm:");
        assert(c@.skip(0) =~= c@);
        if (mem || assembly || imm) && c.len() == 4 {
            Err("Missing URL!")
        } else if mem {
            Ok(ProgramSource::MemoryDumpUrl(strip_prefixes(src, &c, "mem:")))
        } else if assembly {
            Ok(ProgramSource::AssemblyUrl(strip_prefixes(src, &c, "asm:")))
        } else if imm {
            Ok(ProgramSource::ImmediateSource(strip_prefixes(src, &c, "imm:")))
        } else {
            Ok(ProgramSource::FilePath(src.to_owned()))
        }
    }

    /// The source as it is shown: a file's name, `<immediate>`, or the URL with its prefix.
    pub fn to_display_string(&self) -> (s: String)
        ensures
            s@ == display_source(self@),
    {
        match self {
            ProgramSource::FilePath(p) => file_display_name(p.as_str()),
            ProgramSource::ImmediateSource(_) => "<immediate>".to_owned(),
            ProgramSource::MemoryDumpUrl(u) => "mem:".to_owned().concat(u.as_str()),
            ProgramSource::AssemblyUrl(u) => "asm:".to_owned().concat(u.as_str()),
        }
    }

    /// Whether the program must be assembled before it is loaded.
    pub fn requires_assembly(&self) -> (b: bool)
        ensures
            b == match self@ {
                SourceView::FilePath(p) => path_extension(p) == Some("asm"@),
                SourceView::ImmediateSource(_) => true,
                SourceView::MemoryDumpUrl(_) => false,
                SourceView::AssemblyUrl(_) => true,
            },
    {
        match self {
            ProgramSource::FilePath(p) => file_requires_assembly(p.as_str()),
            ProgramSource::ImmediateSource(_) => true,
            ProgramSource::MemoryDumpUrl(_) => false,
            ProgramSource::AssemblyUrl(_) => true,
        }
    }

    /// A copy of the source.
    pub fn duplicate(&self) -> (r: ProgramSource)
        ensures
            r@ == self@,
    {
        match self {
            ProgramSource::FilePath(s) => ProgramSource::FilePath(s.clone()),
            ProgramSource::ImmediateSource(s) => ProgramSource::ImmediateSource(s.clone()),
            ProgramSource::MemoryDumpUrl(s) => ProgramSource::MemoryDumpUrl(s.clone()),
            ProgramSource::AssemblyUrl(s) => ProgramSource::AssemblyUrl(s.clone()),
        }
    }
}

/// Whether the file at `path` holds assembly source, by its `asm` extension.
pub fn file_requires_assembly(path: &str) -> (b: bool)
    ensures
        b == (path_extension(path@) == Some("asm"@)),
{
    match extension_of(path) {
        Some(ext) => {
            let wanted = "asm".to_owned();
            ext == wanted
        },
        None => false,
    }
}

/// A URL source shown and read back gives the same source, as long as the URL is not empty
/// and does not itself start with its own kind's prefix.
pub proof fn law_url_source_round_trip(u: Seq<char>, memory_dump: bool)
    requires
        u.len() > 0,
        memory_dump ==> !starts_with(u, "mem:"@),
        !memory_dump ==> !starts_with(u, "asm:"@),
    ensures
        memory_dump ==> parse_source(display_source(SourceView::MemoryDumpUrl(u))) == Ok::<
            SourceView,
            Seq<char>,
        >(SourceView::MemoryDumpUrl(u)),
        !memory_dump ==> parse_source(display_source(SourceView::AssemblyUrl(u))) == Ok::<
            SourceView,
            Seq<char>,
        >(SourceView::AssemblyUrl(u)),
{
    reveal_strlit("mem:");
    reveal_strlit("asm:");
    reveal_strlit("imm:");
    let m = "mem:"@ + u;
    let a = "asm:"@ + u;
    assert(m.take(4) =~= "mem:"@);
    assert(a.take(4) =~= "asm:"@);
    assert(m.skip(4) =~= u);
    assert(a.skip(4) =~= u);
    assert(!starts_with(a, "mem:"@)) by {
        assert(a.take(4)[0] != "mem:"@[0]);
    }
    if memory_dump {
        assert(strip_all(u, "mem:"@) == u);
    } else {
        assert(strip_all(u, "asm:"@) == u);
    }
}

/// Number of words in the address space.
pub const ADDR_SPACE_SIZE_IN_WORDS: usize = 65536;

/// Number of bytes in a memory dump: two for each word.
pub const ADDR_SPACE_SIZE_IN_BYTES: usize = 131072;

/// How a program is got from its source.
#[derive(Debug)]
pub enum LoadPlan {
    /// The file at this path is read; assembly source is assembled, anything else is read as
    /// a memory dump.
    ReadFile { path: String, assemble: bool },
    /// This assembly source is assembled.
    Assemble(String),
    /// A memory dump is fetched from this URL.
    FetchDump(String),
    /// Assembly source is fetched from this URL and assembled.
    FetchAssembly(String),
}

/// `n` spaces.
pub open spec fn spaces(n: nat) -> Seq<char> {
    Seq::new(n, |i: int| ' ')
}

/// `s` cut or padded with spaces to exactly `n` characters.
pub open spec fn padded(s: Seq<char>, n: nat) -> Seq<char> {
    if s.len() >= n {
        s.take(n as int)
    } else {
        s + spaces((n - s.len()) as nat)
    }
}

/// The label a source is identified by when no better identifier can be made from it.
pub open spec fn default_ident(v: SourceView) -> Seq<char> {
    match v {
        SourceView::FilePath(_) => "<<file>>"@,
        SourceView::ImmediateSource(_) => "<string>"@,
        SourceView::MemoryDumpUrl(_) => "<mem://>"@,
        SourceView::AssemblyUrl(_) => "<asm://>"@,
    }
}

/// The text a source's identifier is made from, before it is fitted to the identifier's
/// length: the file's name, or the URL with a one-letter prefix; none for inline source.
pub open spec fn ident_text(v: SourceView) -> Option<Seq<char>> {
    match v {
        SourceView::FilePath(p) => path_file_name(p),
        SourceView::ImmediateSource(_) => None,
        SourceView::MemoryDumpUrl(u) => Some("m:"@ + u),
        SourceView::AssemblyUrl(u) => Some("a:"@ + u),
    }
}

/// The word at address `i` of a memory dump: two bytes, low byte first.
pub open spec fn dump_word(bytes: Seq<u8>, i: int) -> u16 {
    (bytes[2 * i] + 256 * bytes[2 * i + 1]) as u16
}

/// The message for a memory dump of the wrong size.
pub open spec fn wrong_size_message(url: Seq<char>, len: nat) -> Seq<char> {
    "MemoryDump from `"@ + url + "` is the wrong size: expected 131072 bytes but got "@ + decimal(len)
        + " bytes"@
}

/// `s` followed by `n` spaces.
fn push_spaces(s: &mut String, n: usize)
    ensures
        final(s)@ == old(s)@ + spaces(n as nat),
{
    let mut i: usize = 0;
    while i < n
        invariant
            i <= n,
            s@ == old(s)@ + spaces(i as nat),
        decreases n - i,
    {
        s.append(" ");
        proof {
            reveal_strlit(" ");
        }
        i = i + 1;
        assert(s@ =~= old(s)@ + spaces(i as nat));
    }
}

/// `s` cut or padded with spaces to exactly `n` characters.
pub fn fit_to(s: &str, n: usize) -> (r: String)
    ensures
        r@ == padded(s@, n as nat),
{
    let len = s.unicode_len();
    if len >= n {
        let r = s.substring_char(0, n).to_owned();
        assert(r@ =~= padded(s@, n as nat));
        r
    } else {
        let mut r = s.to_owned();
        push_spaces(&mut r, n - len);
        r
    }
}

impl ProgramSource {
    /// How the program is got from this source.
    pub fn load_plan(&self) -> (p: LoadPlan)
        ensures
            match self@ {
                SourceView::FilePath(f) => p matches LoadPlan::ReadFile { path, assemble } && path@
                    == f && assemble == (path_extension(f) == Some("asm"@)),
                SourceView::ImmediateSource(src) => p matches LoadPlan::Assemble(s) && s@ == src,
                SourceView::MemoryDumpUrl(u) => p matches LoadPlan::FetchDump(s) && s@ == u,
                SourceView::AssemblyUrl(u) => p matches LoadPlan::FetchAssembly(s) && s@ == u,
            },
    {
        match self {
            ProgramSource::FilePath(f) => LoadPlan::ReadFile {
                path: f.clone(),
                assemble: file_requires_assembly(f.as_str()),
            },
            ProgramSource::ImmediateSource(src) => LoadPlan::Assemble(src.clone()),
            ProgramSource::MemoryDumpUrl(u) => LoadPlan::FetchDump(u.clone()),
            ProgramSource::AssemblyUrl(u) => LoadPlan::FetchAssembly(u.clone()),
        }
    }

    /// What the source's identifier is made of: the label used when no identifier can be
    /// made, and the text to make one from, fitted to `max_len` characters.
    pub fn long_ident_parts(&self, max_len: usize) -> (r: (&'static str, Option<String>))
        ensures
            r.0@ == default_ident(self@),
            match ident_text(self@) {
                Some(t) => r.1 matches Some(s) && s@ == padded(t, max_len as nat),
                None => r.1 is None,
            },
    {
        match self {
            ProgramSource::FilePath(p) => match file_name_of(p.as_str()) {
                Some(f) => ("<<file>>", Some(fit_to(f.as_str(), max_len))),
                None => ("<<file>>", None),
            },
            ProgramSource::ImmediateSource(_) => ("<string>", None),
            ProgramSource::MemoryDumpUrl(u) => {
                let t = "m:".to_owned().concat(u.as_str());
                ("<mem://>", Some(fit_to(t.as_str(), max_len)))
            },
            ProgramSource::AssemblyUrl(u) => {
                let t = "a:".to_owned().concat(u.as_str());
                ("<asm://>", Some(fit_to(t.as_str(), max_len)))
            },
        }
    }
}

/// The message telling that the file at `path` does not exist.
pub fn missing_file_message(path: &str) -> (m: String)
    ensures
        m@ == "`"@ + path@ + "` does not exist!"@,
{
    "`".to_owned().concat(path).concat("` does not exist!")
}

/// Reads a memory dump fetched from `url`: the words of the whole address space, two bytes
/// each, low byte first. A dump of any other size is refused with a message.
pub fn memory_dump_from_bytes(bytes: &Vec<u8>, url: &str) -> (r: Result<Vec<u16>, String>)
    ensures
        bytes.len() != ADDR_SPACE_SIZE_IN_BYTES ==> (r matches Err(m) && m@ == wrong_size_message(
            url@,
            bytes.len() as nat,
        )),
        bytes.len() == ADDR_SPACE_SIZE_IN_BYTES ==> (r matches Ok(words) && words.len()
            == ADDR_SPACE_SIZE_IN_WORDS && forall|i: int|
            0 <= i < ADDR_SPACE_SIZE_IN_WORDS ==> #[trigger] words[i] == dump_word(bytes@, i)),
{
    if bytes.len() != ADDR_SPACE_SIZE_IN_BYTES {
        let mut m = "MemoryDump from `".to_owned().concat(url).concat(
            "` is the wrong size: expected 131072 bytes but got ",
        );
        push_decimal(&mut m, bytes.len() as u64);
        m.append(" bytes");
        return Err(m);
    }
    let mut words: Vec<u16> = Vec::with_capacity(ADDR_SPACE_SIZE_IN_WORDS);
    let mut i: usize = 0;
    while i < ADDR_SPACE_SIZE_IN_WORDS
        invariant
            i <= ADDR_SPACE_SIZE_IN_WORDS,
            bytes.len() == ADDR_SPACE_SIZE_IN_BYTES,
            words.len() == i,
            forall|j: int| 0 <= j < i ==> #[trigger] words[j] == dump_word(bytes@, j),
        decreases ADDR_SPACE_SIZE_IN_WORDS - i,
    {
        let lo = bytes[2 * i] as u16;
        let hi = bytes[2 * i + 1] as u16;
        words.push(lo + 256 * hi);
        i = i + 1;
    }
    Ok(words)
}

} // verus!
