//! Bookkeeping for the children the host runs: which command an effect is,
//! how dumps are keyed in the cache, the cache itself, the debounced batch
//! of dumps, and the children still running.

use crate::event::{ChildResult, Effect, EffectKind};
use crate::model::{child_view, effects_view, ChildView, EffectView, KindView};
use crate::text::{decimal, push_char, push_decimal, push_str};
use std::collections::HashMap;
use vstd::prelude::*;
use vstd::string::StringSliceAdditionalSpecFns;

verus! {

/// Which two sides of a path a dump compares.
#[derive(Clone, Copy, Debug, PartialEq, Eq, Structural)]
pub enum DumpSide {
    Unstaged,
    Staged,
    Untracked,
}

/// A cached dump is found again by its path, side, pane width, and the
/// object ids of the two sides.
pub struct DumpKey {
    pub path: String,
    pub side: DumpSide,
    pub width: u16,
    pub hash: String,
}

pub type KeyView = (Seq<char>, DumpSide, u16, Seq<char>);

impl View for DumpKey {
    type V = KeyView;

    open spec fn view(&self) -> KeyView {
        (self.path@, self.side, self.width, self.hash@)
    }
}

impl DumpKey {
    pub fn duplicate(&self) -> (r: DumpKey)
        ensures
            r@ == self@,
    {
        DumpKey {
            path: self.path.clone(),
            side: self.side,
            width: self.width,
            hash: self.hash.clone(),
        }
    }

    pub fn same(&self, other: &DumpKey) -> (b: bool)
        ensures
            b == (self@ == other@),
    {
        self.path == other.path && self.side == other.side && self.width == other.width
            && self.hash == other.hash
    }
}

/// The path, side and width a dump effect is for; other effects are no dump.
pub open spec fn target_spec(k: KindView) -> Option<(Seq<char>, DumpSide, u16)> {
    match k {
        KindView::GitDiff { path, cached, width } => Some(
            (
                path,
                if cached {
                    DumpSide::Staged
                } else {
                    DumpSide::Unstaged
                },
                width,
            ),
        ),
        KindView::Difft { path, width } => Some((path, DumpSide::Untracked, width)),
        _ => None,
    }
}

pub fn dump_target(effect: &Effect) -> (r: Option<(String, DumpSide, u16)>)
    ensures
        match r {
            Some(t) => target_spec(effect@.kind) == Some((t.0@, t.1, t.2)),
            None => target_spec(effect@.kind) is None,
        },
{
    match &effect.kind {
        EffectKind::GitDiff { path, cached, width } => Some(
            (
                path.clone(),
                if *cached {
                    DumpSide::Staged
                } else {
                    DumpSide::Unstaged
                },
                *width,
            ),
        ),
        EffectKind::Difft { path, width } => Some((path.clone(), DumpSide::Untracked, *width)),
        _ => None,
    }
}

/// The content hash of a side: the work-tree blob of an untracked file,
/// index and work tree for unstaged changes, HEAD and index for staged ones.
pub open spec fn hash_spec(side: DumpSide, worktree: Seq<char>, index: Seq<char>, head: Seq<char>) -> Seq<char> {
    match side {
        DumpSide::Untracked => worktree,
        DumpSide::Unstaged => index + seq![':'] + worktree,
        DumpSide::Staged => head + seq![':'] + index,
    }
}

pub fn content_hash(side: DumpSide, worktree: &str, index: &str, head: &str) -> (h: String)
    ensures
        h@ == hash_spec(side, worktree@, index@, head@),
{
    let mut h = String::new();
    match side {
        DumpSide::Untracked => push_str(&mut h, worktree),
        DumpSide::Unstaged => {
            push_str(&mut h, index);
            push_char(&mut h, ':');
            push_str(&mut h, worktree);
        },
        DumpSide::Staged => {
            push_str(&mut h, head);
            push_char(&mut h, ':');
            push_str(&mut h, index);
        },
    }
    h
}

/// The cache key of a dump effect, once its content hash is known.
pub fn dump_key(effect: &Effect, hash: String) -> (k: Option<DumpKey>)
    ensures
        match k {
            Some(k) => target_spec(effect@.kind) == Some((k@.0, k@.1, k@.2)) && k@.3 == hash@,
            None => target_spec(effect@.kind) is None,
        },
{
    match dump_target(effect) {
        Some(t) => Some(DumpKey { path: t.0, side: t.1, width: t.2, hash }),
        None => None,
    }
}

// ------------------------------------------------------------ commands

/// A command line: the program, its arguments, and the pane width that
/// `difft` is told through its environment (when it draws a dump).
pub struct CommandSpec {
    pub program: String,
    pub args: Vec<String>,
    pub dft_width: Option<u16>,
}

pub type CommandView = (Seq<char>, Seq<Seq<char>>, Option<u16>);

pub open spec fn strs(v: Seq<String>) -> Seq<Seq<char>> {
    v.map_values(|s: String| s@)
}

/// The command each effect runs; quitting runs none.
pub open spec fn command_for(k: KindView) -> Option<CommandView> {
    match k {
        KindView::Quit => None,
        KindView::GitPorcelain => Some(
            ("git"@, seq!["status"@, "--porcelain"@, "-z"@, "--untracked-files=all"@], None),
        ),
        KindView::GitLsFiles => Some(
            ("git"@, seq!["ls-files"@, "-c"@, "-o"@, "--exclude-standard"@, "-z"@], None),
        ),
        KindView::GitDiff { path, cached, width } => Some(
            (
                "git"@,
                seq!["-c"@, "diff.external=difft"@, "--no-pager"@, "diff"@] + (if cached {
                    seq!["--cached"@]
                } else {
                    Seq::empty()
                }) + seq!["--"@, path],
                Some(width),
            ),
        ),
        KindView::Difft { path, width } => Some(("difft"@, seq!["/dev/null"@, path], Some(width))),
        KindView::GitAdd { path } => Some(("git"@, seq!["add"@, "--"@, path], None)),
        KindView::GitReset { path } => Some(("git"@, seq!["reset"@, "HEAD"@, "--"@, path], None)),
        KindView::GitRmCached { path } => Some(
            ("git"@, seq!["rm"@, "--cached"@, "--force"@, "--"@, path], None),
        ),
        KindView::GitAddAll => Some(("git"@, seq!["add"@, "-A"@], None)),
        KindView::GitCommit { summary, description } => Some(
            (
                "git"@,
                seq!["commit"@, "-m"@, summary] + if description.len() > 0 {
                    seq!["-m"@, description]
                } else {
                    Seq::empty()
                },
                None,
            ),
        ),
    }
}

fn arg(v: &mut Vec<String>, s: &str)
    ensures
        strs(final(v)@) == strs(old(v)@).push(s@),
{
    let ghost before = strs(v@);
    v.push(String::from_str(s));
    assert(strs(v@) =~= before.push(s@));
}

fn arg_string(v: &mut Vec<String>, s: &String)
    ensures
        strs(final(v)@) == strs(old(v)@).push(s@),
{
    let ghost before = strs(v@);
    v.push(s.clone());
    assert(strs(v@) =~= before.push(s@));
}

pub fn effect_command(effect: &Effect) -> (c: Option<CommandSpec>)
    ensures
        match c {
            Some(c) => command_for(effect@.kind) == Some((c.program@, strs(c.args@), c.dft_width)),
            None => command_for(effect@.kind) is None,
        },
{
    let mut args: Vec<String> = Vec::new();
    assert(strs(args@) =~= Seq::<Seq<char>>::empty());
    match &effect.kind {
        EffectKind::Quit => None,
        EffectKind::GitPorcelain => {
            arg(&mut args, "status");
            arg(&mut args, "--porcelain");
            arg(&mut args, "-z");
            arg(&mut args, "--untracked-files=all");
            assert(strs(args@) =~= seq!["status"@, "--porcelain"@, "-z"@, "--untracked-files=all"@]);
            Some(CommandSpec { program: String::from_str("git"), args, dft_width: None })
        },
        EffectKind::GitLsFiles => {
            arg(&mut args, "ls-files");
            arg(&mut args, "-c");
            arg(&mut args, "-o");
            arg(&mut args, "--exclude-standard");
            arg(&mut args, "-z");
            assert(strs(args@) =~= seq!["ls-files"@, "-c"@, "-o"@, "--exclude-standard"@, "-z"@]);
            Some(CommandSpec { program: String::from_str("git"), args, dft_width: None })
        },
        EffectKind::GitDiff { path, cached, width } => {
            arg(&mut args, "-c");
            arg(&mut args, "diff.external=difft");
            arg(&mut args, "--no-pager");
            arg(&mut args, "diff");
            if *cached {
                arg(&mut args, "--cached");
            }
            arg(&mut args, "--");
            arg_string(&mut args, path);
            assert(strs(args@) =~= seq!["-c"@, "diff.external=difft"@, "--no-pager"@, "diff"@] + (
            if *cached {
                seq!["--cached"@]
            } else {
                Seq::empty()
            }) + seq!["--"@, path@]);
            Some(CommandSpec { program: String::from_str("git"), args, dft_width: Some(*width) })
        },
        EffectKind::Difft { path, width } => {
            arg(&mut args, "/dev/null");
            arg_string(&mut args, path);
            assert(strs(args@) =~= seq!["/dev/null"@, path@]);
            Some(CommandSpec { program: String::from_str("difft"), args, dft_width: Some(*width) })
        },
        EffectKind::GitAdd { path } => {
            arg(&mut args, "add");
            arg(&mut args, "--");
            arg_string(&mut args, path);
            assert(strs(args@) =~= seq!["add"@, "--"@, path@]);
            Some(CommandSpec { program: String::from_str("git"), args, dft_width: None })
        },
        EffectKind::GitReset { path } => {
            arg(&mut args, "reset");
            arg(&mut args, "HEAD");
            arg(&mut args, "--");
            arg_string(&mut args, path);
            assert(strs(args@) =~= seq!["reset"@, "HEAD"@, "--"@, path@]);
            Some(CommandSpec { program: String::from_str("git"), args, dft_width: None })
        },
        EffectKind::GitRmCached { path } => {
            arg(&mut args, "rm");
            arg(&mut args, "--cached");
            arg(&mut args, "--force");
            arg(&mut args, "--");
            arg_string(&mut args, path);
            assert(strs(args@) =~= seq!["rm"@, "--cached"@, "--force"@, "--"@, path@]);
            Some(CommandSpec { program: String::from_str("git"), args, dft_width: None })
        },
        EffectKind::GitAddAll => {
            arg(&mut args, "add");
            arg(&mut args, "-A");
            assert(strs(args@) =~= seq!["add"@, "-A"@]);
            Some(CommandSpec { program: String::from_str("git"), args, dft_width: None })
        },
        EffectKind::GitCommit { summary, description } => {
            arg(&mut args, "commit");
            arg(&mut args, "-m");
            arg_string(&mut args, summary);
            if description.unicode_len() > 0 {
                arg(&mut args, "-m");
                arg_string(&mut args, description);
            }
            assert(strs(args@) =~= seq!["commit"@, "-m"@, summary@] + if description@.len() > 0 {
                seq!["-m"@, description@]
            } else {
                Seq::empty()
            });
            Some(CommandSpec { program: String::from_str("git"), args, dft_width: None })
        },
    }
}

/// The environment `difft` draws with: the pane width, colour, side by
/// side, on a dark background.
pub open spec fn dft_env_spec(width: u16) -> Seq<(Seq<char>, Seq<char>)> {
    seq![
        ("DFT_WIDTH"@, decimal(width as nat)),
        ("DFT_COLOR"@, "always"@),
        ("DFT_DISPLAY"@, "side-by-side"@),
        ("DFT_BACKGROUND"@, "dark"@),
    ]
}

pub open spec fn pairs_view(v: Seq<(String, String)>) -> Seq<(Seq<char>, Seq<char>)> {
    v.map_values(|p: (String, String)| (p.0@, p.1@))
}

pub fn dft_env(width: u16) -> (v: Vec<(String, String)>)
    ensures
        pairs_view(v@) == dft_env_spec(width),
{
    let mut w = String::new();
    push_decimal(&mut w, width as u64);
    let mut v: Vec<(String, String)> = Vec::new();
    v.push((String::from_str("DFT_WIDTH"), w));
    v.push((String::from_str("DFT_COLOR"), String::from_str("always")));
    v.push((String::from_str("DFT_DISPLAY"), String::from_str("side-by-side")));
    v.push((String::from_str("DFT_BACKGROUND"), String::from_str("dark")));
    assert(pairs_view(v@) =~= dft_env_spec(width));
    v
}

/// Files this large are sniffed for a NUL before a dump is started.
pub const LARGE_BINARY_BYTES: u64 = 1_000_000;

/// How many leading bytes are sniffed.
pub const BINARY_SNIFF: usize = 8000;

/// A large file whose first bytes hold a NUL gets the binary one-liner
/// without running `difft`.
pub open spec fn large_binary_spec(is_file: bool, len: u64, sniff: Seq<u8>) -> bool {
    is_file && len >= LARGE_BINARY_BYTES && sniff.contains(0u8)
}

/// Only a regular file this large is sniffed at all.
pub fn worth_sniffing(is_file: bool, len: u64) -> (b: bool)
    ensures
        b == (is_file && len >= LARGE_BINARY_BYTES),
{
    is_file && len >= LARGE_BINARY_BYTES
}

pub fn is_large_binary(is_file: bool, len: u64, sniff: &[u8]) -> (b: bool)
    ensures
        b == large_binary_spec(is_file, len, sniff@),
{
    if !is_file || len < LARGE_BINARY_BYTES {
        return false;
    }
    let mut i: usize = 0;
    while i < sniff.len()
        invariant
            i <= sniff.len(),
            is_file,
            len >= LARGE_BINARY_BYTES,
            forall|k: int| 0 <= k < i ==> sniff@[k] != 0u8,
        decreases sniff.len() - i,
    {
        if sniff[i] == 0 {
            assert(sniff@[i as int] == 0u8);
            assert(sniff@.contains(0u8));
            return true;
        }
        i = i + 1;
    }
    assert(!sniff@.contains(0u8));
    false
}

/// What a large binary dumps instead: its UTF-8 bytes.
pub open spec fn binary_stdout() -> Seq<u8> {
    "Binary contents changed.\n".spec_bytes()
}

pub fn large_binary_stdout() -> (v: Vec<u8>)
    ensures
        v@ == binary_stdout(),
{
    "Binary contents changed.\n".as_bytes_vec()
}

} // verus!

verus! {

// ------------------------------------------------------------ the job table

/// What a table keyed by `K` answers for `k`: the last entry stored under it.
pub open spec fn lookup<K, V>(s: Seq<(K, V)>, k: K) -> Option<V>
    decreases s.len(),
{
    if s.len() == 0 {
        None
    } else if s.last().0 == k {
        Some(s.last().1)
    } else {
        lookup(s.drop_last(), k)
    }
}

/// The table with every entry under `k` taken out, in order.
pub open spec fn without_key<K, V>(s: Seq<(K, V)>, k: K) -> Seq<(K, V)>
    decreases s.len(),
{
    if s.len() == 0 {
        s
    } else if s.last().0 == k {
        without_key(s.drop_last(), k)
    } else {
        without_key(s.drop_last(), k).push(s.last())
    }
}

/// Storing `v` under `k`: the old entry goes, the new one comes last.
pub open spec fn stored<K, V>(s: Seq<(K, V)>, k: K, v: V) -> Seq<(K, V)> {
    without_key(s, k).push((k, v))
}

pub proof fn lemma_without_key<K, V>(s: Seq<(K, V)>, k: K, other: K)
    ensures
        lookup(without_key(s, k), k) is None,
        other != k ==> lookup(without_key(s, k), other) == lookup(s, other),
    decreases s.len(),
{
    if s.len() > 0 {
        lemma_without_key(s.drop_last(), k, other);
        if s.last().0 != k {
            assert(without_key(s, k).drop_last() == without_key(s.drop_last(), k));
        }
    }
}

/// A stored value is what a lookup under its key gives back, and no other
/// key's answer changes.
pub proof fn law_lookup_after_store<K, V>(s: Seq<(K, V)>, k: K, v: V, other: K)
    ensures
        lookup(stored(s, k, v), k) == Some(v),
        other != k ==> lookup(stored(s, k, v), other) == lookup(s, other),
{
    lemma_without_key(s, k, other);
    assert(stored(s, k, v).drop_last() == without_key(s, k));
}

pub open spec fn cache_view(s: Seq<(DumpKey, Vec<u8>)>) -> Seq<(KeyView, Seq<u8>)> {
    s.map_values(|e: (DumpKey, Vec<u8>)| (e.0@, e.1@))
}

pub open spec fn flight_view(m: Map<u64, DumpKey>) -> Map<u64, KeyView> {
    m.map_values(|k: DumpKey| k@)
}

/// How long a batch of dumps waits for the selection to settle.
pub const DUMP_DEBOUNCE_MS: u64 = 50;

/// How often running children are reaped.
pub const REAP_MS: u64 = 16;

/// The host's record of dumps: what they printed before (by key), which
/// running child stands for which key, the children's process ids, and the
/// last batch that waits out the debounce.
pub struct DumpJobs {
    cache: Vec<(DumpKey, Vec<u8>)>,
    in_flight: HashMap<u64, DumpKey>,
    pids: Vec<(u64, u32)>,
    delayed: Option<(u64, Vec<Effect>)>,
}

pub struct JobsView {
    pub cache: Seq<(KeyView, Seq<u8>)>,
    pub in_flight: Map<u64, KeyView>,
    pub pids: Seq<(u64, u32)>,
    pub delayed: Option<(u64, Seq<EffectView>)>,
}

impl View for DumpJobs {
    type V = JobsView;

    closed spec fn view(&self) -> JobsView {
        JobsView {
            cache: cache_view(self.cache@),
            in_flight: flight_view(self.in_flight@),
            pids: self.pids@,
            delayed: match self.delayed {
                Some(d) => Some((d.0, effects_view(d.1@))),
                None => None,
            },
        }
    }
}

/// The process ids of the running children, in the order they started.
pub open spec fn pid_list(p: Seq<(u64, u32)>) -> Seq<u32> {
    p.map_values(|e: (u64, u32)| e.1)
}

pub open spec fn children_view(v: Seq<ChildResult>) -> Seq<ChildView> {
    v.map_values(|c: ChildResult| child_view(c))
}

pub open spec fn pending_view(v: Seq<(Effect, Option<DumpKey>)>) -> Seq<(EffectView, Option<KeyView>)> {
    v.map_values(
        |d: (Effect, Option<DumpKey>)|
            (
                d.0@,
                match d.1 {
                    Some(k) => Some(k@),
                    None => None,
                },
            ),
    )
}

/// Dumps with their keys, split in order into the answers the cache holds
/// (each a successful child with the cached output) and those still to run.
pub open spec fn served(cache: Seq<(KeyView, Seq<u8>)>, ds: Seq<(EffectView, Option<KeyView>)>) -> (
    Seq<ChildView>,
    Seq<(EffectView, Option<KeyView>)>,
)
    decreases ds.len(),
{
    if ds.len() == 0 {
        (Seq::empty(), Seq::empty())
    } else {
        let rest = served(cache, ds.drop_first());
        let hit = match ds[0].1 {
            Some(k) => lookup(cache, k),
            None => None,
        };
        match hit {
            Some(b) => (
                seq![ChildView { id: ds[0].0.id, exit: 0, stdout: b, stderr: Seq::empty() }]
                    + rest.0,
                rest.1,
            ),
            None => (rest.0, seq![ds[0]] + rest.1),
        }
    }
}

/// How long the host may wait for input: until the next poll, or the
/// debounced batch falling due, or the next reap while children run.
pub open spec fn wait_spec(v: JobsView, now: u64, tick: u64) -> u64 {
    let t = if tick > now { (tick - now) as u64 } else { 0u64 };
    let d = match v.delayed {
        Some(b) => {
            let left = if b.0 > now { (b.0 - now) as u64 } else { 0u64 };
            if left < t { left } else { t }
        },
        None => t,
    };
    if v.pids.len() > 0 && REAP_MS < d { REAP_MS } else { d }
}

fn take_pids(pids: &mut Vec<(u64, u32)>) -> (r: Vec<u32>)
    ensures
        final(pids)@.len() == 0,
        r@ == pid_list(old(pids)@),
{
    let mut r: Vec<u32> = Vec::new();
    let mut i: usize = 0;
    while i < pids.len()
        invariant
            i <= pids.len(),
            r@ == pid_list(pids@.take(i as int)),
        decreases pids.len() - i,
    {
        r.push(pids[i].1);
        assert(pids@.take(i + 1) == pids@.take(i as int).push(pids@[i as int]));
        i = i + 1;
    }
    assert(pids@.take(pids.len() as int) == pids@);
    pids.clear();
    r
}

impl DumpJobs {
    pub fn new() -> (j: DumpJobs)
        ensures
            j@.cache.len() == 0,
            j@.in_flight == Map::<u64, KeyView>::empty(),
            j@.pids.len() == 0,
            j@.delayed is None,
    {
        let j = DumpJobs { cache: Vec::new(), in_flight: HashMap::new(), pids: Vec::new(), delayed: None };
        assert(j@.in_flight =~= Map::<u64, KeyView>::empty());
        j
    }

    /// What the cache holds for this key.
    pub fn cached(&self, key: &DumpKey) -> (r: Option<Vec<u8>>)
        ensures
            match r {
                Some(b) => lookup(self@.cache, key@) == Some(b@),
                None => lookup(self@.cache, key@) is None,
            },
    {
        let ghost c = self@.cache;
        let mut found: Option<Vec<u8>> = None;
        let mut i: usize = 0;
        while i < self.cache.len()
            invariant
                i <= self.cache.len(),
                c == cache_view(self.cache@),
                match found {
                    Some(b) => lookup(c.take(i as int), key@) == Some(b@),
                    None => lookup(c.take(i as int), key@) is None,
                },
            decreases self.cache.len() - i,
        {
            assert(c.take(i + 1).drop_last() == c.take(i as int));
            if self.cache[i].0.same(key) {
                found = Some(crate::session::copy_bytes(&self.cache[i].1));
            }
            i = i + 1;
        }
        assert(c.take(self.cache.len() as int) == c);
        found
    }

    /// Stores a dump's output under its key, replacing what was there.
    pub fn remember(&mut self, key: DumpKey, stdout: Vec<u8>)
        ensures
            final(self)@.cache == stored(old(self)@.cache, key@, stdout@),
            final(self)@.in_flight == old(self)@.in_flight,
            final(self)@.pids == old(self)@.pids,
            final(self)@.delayed == old(self)@.delayed,
    {
        let ghost c = old(self)@.cache;
        let mut kept: Vec<(DumpKey, Vec<u8>)> = Vec::new();
        let mut old_cache: Vec<(DumpKey, Vec<u8>)> = Vec::new();
        std::mem::swap(&mut old_cache, &mut self.cache);
        assert(cache_view(old_cache@) == c);
        let mut i: usize = 0;
        while i < old_cache.len()
            invariant
                i <= old_cache.len(),
                c == cache_view(old_cache@),
                cache_view(kept@) == without_key(c.take(i as int), key@),
            decreases old_cache.len() - i,
        {
            assert(c.take(i + 1).drop_last() == c.take(i as int));
            if !old_cache[i].0.same(&key) {
                let e = (old_cache[i].0.duplicate(), crate::session::copy_bytes(&old_cache[i].1));
                kept.push(e);
                assert(cache_view(kept@) == without_key(c.take(i as int), key@).push(c[i as int]));
            }
            i = i + 1;
        }
        assert(c.take(old_cache.len() as int) == c);
        let ghost kv = (key@, stdout@);
        kept.push((key, stdout));
        assert(cache_view(kept@) == without_key(c, kv.0).push(kv));
        self.cache = kept;
    }

    /// Waits out the debounce before this batch runs; any batch already
    /// waiting is dropped and the running children are returned to be
    /// stopped.
    pub fn schedule(&mut self, dumps: Vec<Effect>, now: u64) -> (stop: Vec<u32>)
        ensures
            stop@ == pid_list(old(self)@.pids),
            final(self)@.pids.len() == 0,
            final(self)@.delayed == Some((now.saturating_add(DUMP_DEBOUNCE_MS), effects_view(dumps@))),
            final(self)@.cache == old(self)@.cache,
            final(self)@.in_flight == old(self)@.in_flight,
    {
        let stop = self.cancel();
        let ghost ev = effects_view(dumps@);
        self.delayed = Some((now.saturating_add(DUMP_DEBOUNCE_MS), dumps));
        stop
    }

    /// Drops the waiting batch and hands back the running children to stop.
    pub fn cancel(&mut self) -> (stop: Vec<u32>)
        ensures
            stop@ == pid_list(old(self)@.pids),
            final(self)@.pids.len() == 0,
            final(self)@.delayed is None,
            final(self)@.cache == old(self)@.cache,
            final(self)@.in_flight == old(self)@.in_flight,
    {
        self.delayed = None;
        take_pids(&mut self.pids)
    }

    /// The waiting batch, once it is due; before that, nothing.
    pub fn take_due(&mut self, now: u64) -> (due: Vec<Effect>)
        ensures
            match old(self)@.delayed {
                Some(b) => if now < b.0 {
                    due@.len() == 0 && final(self)@.delayed == old(self)@.delayed
                } else {
                    effects_view(due@) == b.1 && final(self)@.delayed is None
                },
                None => due@.len() == 0 && final(self)@.delayed is None,
            },
            final(self)@.cache == old(self)@.cache,
            final(self)@.in_flight == old(self)@.in_flight,
            final(self)@.pids == old(self)@.pids,
    {
        match self.delayed.take() {
            Some((when, dumps)) => {
                if now < when {
                    self.delayed = Some((when, dumps));
                    Vec::new()
                } else {
                    dumps
                }
            },
            None => Vec::new(),
        }
    }

    /// The batch waiting out the debounce, if any.
    pub fn waiting(&self) -> (r: Option<&Vec<Effect>>)
        ensures
            match r {
                Some(v) => self@.delayed is Some && effects_view(v@) == self@.delayed.unwrap().1,
                None => self@.delayed is None,
            },
    {
        match &self.delayed {
            Some(d) => Some(&d.1),
            None => None,
        }
    }

    /// A dump started under this key: its output is cached when it ends.
    pub fn track(&mut self, id: u64, key: DumpKey)
        ensures
            final(self)@.in_flight == old(self)@.in_flight.insert(id, key@),
            final(self)@.cache == old(self)@.cache,
            final(self)@.pids == old(self)@.pids,
            final(self)@.delayed == old(self)@.delayed,
    {
        broadcast use vstd::std_specs::hash::group_hash_axioms;

        let ghost kv = key@;
        self.in_flight.insert(id, key);
        assert(flight_view(self.in_flight@) =~= old(self)@.in_flight.insert(id, kv));
    }

    /// Forgets the key of a dump that will not be cached; hands it back.
    pub fn untrack(&mut self, id: u64) -> (r: Option<DumpKey>)
        ensures
            final(self)@.in_flight == old(self)@.in_flight.remove(id),
            match r {
                Some(k) => old(self)@.in_flight.contains_key(id) && old(self)@.in_flight[id] == k@,
                None => !old(self)@.in_flight.contains_key(id),
            },
            final(self)@.cache == old(self)@.cache,
            final(self)@.pids == old(self)@.pids,
            final(self)@.delayed == old(self)@.delayed,
    {
        broadcast use vstd::std_specs::hash::group_hash_axioms;

        let r = self.in_flight.remove(&id);
        assert(flight_view(self.in_flight@) =~= old(self)@.in_flight.remove(id));
        r
    }

    /// A dump ended with this output: if its key is known, the output is
    /// cached under it and the key forgotten.
    pub fn store(&mut self, id: u64, stdout: &Vec<u8>)
        ensures
            final(self)@.in_flight == old(self)@.in_flight.remove(id),
            final(self)@.cache == if old(self)@.in_flight.contains_key(id) {
                stored(old(self)@.cache, old(self)@.in_flight[id], stdout@)
            } else {
                old(self)@.cache
            },
            final(self)@.pids == old(self)@.pids,
            final(self)@.delayed == old(self)@.delayed,
    {
        match self.untrack(id) {
            Some(key) => self.remember(key, crate::session::copy_bytes(stdout)),
            None => {},
        }
    }

    /// A child was started for this effect.
    pub fn started(&mut self, id: u64, pid: u32)
        ensures
            final(self)@.pids == old(self)@.pids.push((id, pid)),
            final(self)@.cache == old(self)@.cache,
            final(self)@.in_flight == old(self)@.in_flight,
            final(self)@.delayed == old(self)@.delayed,
    {
        self.pids.push((id, pid));
    }

    /// A child reported: it no longer runs, and its output is cached when
    /// it succeeded; a failure is not cached.
    pub fn finished(&mut self, result: &ChildResult)
        ensures
            final(self)@.pids == without_key(old(self)@.pids, result.id),
            final(self)@.in_flight == old(self)@.in_flight.remove(result.id),
            final(self)@.cache == if result.exit == 0 && old(self)@.in_flight.contains_key(result.id) {
                stored(old(self)@.cache, old(self)@.in_flight[result.id], result.stdout@)
            } else {
                old(self)@.cache
            },
            final(self)@.delayed == old(self)@.delayed,
    {
        let ghost p = self.pids@;
        let mut kept: Vec<(u64, u32)> = Vec::new();
        let mut i: usize = 0;
        while i < self.pids.len()
            invariant
                i <= self.pids.len(),
                p == self.pids@,
                kept@ == without_key(p.take(i as int), result.id),
            decreases self.pids.len() - i,
        {
            assert(p.take(i + 1).drop_last() == p.take(i as int));
            if self.pids[i].0 != result.id {
                kept.push(self.pids[i]);
            }
            i = i + 1;
        }
        assert(p.take(p.len() as int) == p);
        self.pids = kept;
        if result.exit == 0 {
            self.store(result.id, &result.stdout);
        } else {
            let _ = self.untrack(result.id);
        }
    }

    /// Answers the dumps the cache holds, in order, as successful children;
    /// the rest come back, in order, to be run.
    pub fn serve(&self, dumps: Vec<(Effect, Option<DumpKey>)>) -> (r: (
        Vec<ChildResult>,
        Vec<(Effect, Option<DumpKey>)>,
    ))
        ensures
            (children_view(r.0@), pending_view(r.1@)) == served(self@.cache, pending_view(dumps@)),
    {
        let ghost goal = served(self@.cache, pending_view(dumps@));
        let mut rest = dumps;
        let mut hits: Vec<ChildResult> = Vec::new();
        let mut misses: Vec<(Effect, Option<DumpKey>)> = Vec::new();
        assert(children_view(hits@) =~= Seq::<ChildView>::empty());
        assert(pending_view(misses@) =~= Seq::<(EffectView, Option<KeyView>)>::empty());
        while rest.len() > 0
            invariant
                goal == served(self@.cache, pending_view(dumps@)),
                goal == (
                    children_view(hits@) + served(self@.cache, pending_view(rest@)).0,
                    pending_view(misses@) + served(self@.cache, pending_view(rest@)).1,
                ),
            decreases rest.len(),
        {
            let ghost pv = pending_view(rest@);
            let ghost hv = children_view(hits@);
            let ghost mv = pending_view(misses@);
            let d = rest.remove(0);
            assert(pending_view(rest@) =~= pv.drop_first());
            let ghost tail = served(self@.cache, pv.drop_first());
            let found = match &d.1 {
                Some(k) => self.cached(k),
                None => None,
            };
            match found {
                Some(stdout) => {
                    let c = ChildResult { id: d.0.id, exit: 0, stdout, stderr: Vec::new() };
                    let ghost cv = child_view(c);
                    hits.push(c);
                    assert(children_view(hits@) =~= hv.push(cv));
                    assert(hv.push(cv) + tail.0 =~= hv + (seq![cv] + tail.0));
                },
                None => {
                    let ghost dv = pv[0];
                    misses.push(d);
                    assert(pending_view(misses@) =~= mv.push(dv));
                    assert(mv.push(dv) + tail.1 =~= mv + (seq![dv] + tail.1));
                },
            }
        }
        assert(served(self@.cache, pending_view(rest@)).0 =~= Seq::<ChildView>::empty());
        assert(children_view(hits@) + Seq::<ChildView>::empty() =~= children_view(hits@));
        assert(pending_view(misses@) + Seq::<(EffectView, Option<KeyView>)>::empty()
            =~= pending_view(misses@));
        (hits, misses)
    }

    /// How long the host may wait for input, in milliseconds, when it is
    /// `now` and the next poll is due at `tick`.
    pub fn wait_ms(&self, now: u64, tick: u64) -> (w: u64)
        ensures
            w == wait_spec(self@, now, tick),
    {
        let mut w: u64 = tick.saturating_sub(now);
        match &self.delayed {
            Some(d) => {
                let left = d.0.saturating_sub(now);
                if left < w {
                    w = left;
                }
            },
            None => {},
        }
        if self.pids.len() > 0 && REAP_MS < w {
            w = REAP_MS;
        }
        w
    }
}

} // verus!

verus! {

// ------------------------------------------------------------ fulfilling effects

/// Whether an effect asks for a dump (which goes through the cache and the
/// debounce instead of running at once).
pub open spec fn is_dump(k: KindView) -> bool {
    k is GitDiff || k is Difft
}

pub fn effect_is_dump(e: &Effect) -> (b: bool)
    ensures
        b == is_dump(e@.kind),
{
    match &e.kind {
        EffectKind::GitDiff { .. } => true,
        EffectKind::Difft { .. } => true,
        _ => false,
    }
}

/// What the host does next with the effects of one step.
pub enum Step {
    /// Stop: the session asked to quit.
    Quit,
    /// Run this effect now and hand its result back to the session.
    Run(Effect),
    /// Nothing else to run: these dumps go to the cache or the debounce.
    Dumps(Vec<Effect>),
}

pub enum StepView {
    Quit,
    Run(EffectView),
    Dumps(Seq<EffectView>),
}

impl View for Step {
    type V = StepView;

    open spec fn view(&self) -> StepView {
        match self {
            Step::Quit => StepView::Quit,
            Step::Run(e) => StepView::Run(e@),
            Step::Dumps(v) => StepView::Dumps(effects_view(v@)),
        }
    }
}

/// The next step for a queue of effects, with the dumps set aside so far:
/// dumps are set aside in order, the first other effect is the step, and an
/// empty queue hands over the dumps. Also gives the queue and the dumps left.
pub open spec fn next_step(queue: Seq<EffectView>, dumps: Seq<EffectView>) -> (
    StepView,
    Seq<EffectView>,
    Seq<EffectView>,
)
    decreases queue.len(),
{
    if queue.len() == 0 {
        (StepView::Dumps(dumps), queue, Seq::empty())
    } else if queue[0].kind is Quit {
        (StepView::Quit, queue.drop_first(), dumps)
    } else if is_dump(queue[0].kind) {
        next_step(queue.drop_first(), dumps.push(queue[0]))
    } else {
        (StepView::Run(queue[0]), queue.drop_first(), dumps)
    }
}

/// The effects of one step, worked through in order: the effects that a
/// result asks for in turn join the end of the queue.
pub struct Fulfill {
    queue: Vec<Effect>,
    dumps: Vec<Effect>,
}

impl View for Fulfill {
    type V = (Seq<EffectView>, Seq<EffectView>);

    closed spec fn view(&self) -> (Seq<EffectView>, Seq<EffectView>) {
        (effects_view(self.queue@), effects_view(self.dumps@))
    }
}

impl Fulfill {
    pub fn new(effects: Vec<Effect>) -> (f: Fulfill)
        ensures
            f@ == (effects_view(effects@), Seq::<EffectView>::empty()),
    {
        let f = Fulfill { queue: effects, dumps: Vec::new() };
        assert(effects_view(f.dumps@) =~= Seq::<EffectView>::empty());
        f
    }

    /// Effects that a result asked for: they run after those queued.
    pub fn extend(&mut self, more: Vec<Effect>)
        ensures
            final(self)@ == (old(self)@.0 + effects_view(more@), old(self)@.1),
    {
        let mut more = more;
        let ghost q = effects_view(self.queue@);
        let ghost m = effects_view(more@);
        self.queue.append(&mut more);
        assert(effects_view(self.queue@) =~= q + m);
    }

    pub fn next(&mut self) -> (s: Step)
        ensures
            next_step(old(self)@.0, old(self)@.1) == (s@, final(self)@.0, final(self)@.1),
    {
        let ghost goal = next_step(self@.0, self@.1);
        loop
            invariant
                goal == next_step(old(self)@.0, old(self)@.1),
                next_step(self@.0, self@.1) == goal,
            decreases self.queue.len(),
        {
            if self.queue.len() == 0 {
                let mut dumps: Vec<Effect> = Vec::new();
                std::mem::swap(&mut dumps, &mut self.dumps);
                assert(effects_view(self.dumps@) =~= Seq::<EffectView>::empty());
                return Step::Dumps(dumps);
            }
            let ghost q = self@.0;
            let ghost d = self@.1;
            let e = self.queue.remove(0);
            assert(e@ == q[0]);
            assert(effects_view(self.queue@) =~= q.drop_first());
            if effect_is_dump(&e) {
                let ghost ev = e@;
                self.dumps.push(e);
                assert(effects_view(self.dumps@) =~= d.push(ev));
            } else {
                match &e.kind {
                    EffectKind::Quit => {
                        return Step::Quit;
                    },
                    _ => {
                        return Step::Run(e);
                    },
                }
            }
        }
    }
}

} // verus!
