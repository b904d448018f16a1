//! Command-line arguments and what the commands compute before and after
//! talking to the daemon.

use vstd::prelude::*;

use crate::config::{strings_view, CortexConfig};
use crate::paths::{expand_home, expand_home_of, home_dir};
use crate::numbers::{decimal, decimal_text, uptime_parts};
use crate::text::{concat3, string_from_chars, to_chars};

verus! {

broadcast use vstd::string::group_string_axioms;

/// Arguments of `cortex search`.
#[derive(Debug)]
pub struct SearchArgs {
    /// The search query
    pub query: String,
    /// Maximum number of results
    pub limit: usize,
}

/// Arguments of `cortex start`.
#[derive(Debug)]
pub struct StartArgs {
    /// Directories to watch for files
    pub watch: Vec<String>,
    /// Optional TCP port for the API
    pub tcp_port: Option<u16>,
}

/// The watch paths with `~/` expanded for the given home directory.
pub open spec fn expanded_paths(watch: Seq<String>, home: Option<Seq<char>>) -> Seq<Seq<char>> {
    watch.map_values(|p: String| expand_home_of(p@, home))
}

/// `c` is `old` with the start arguments merged in, for the given home directory.
pub open spec fn merged_config(
    old: CortexConfig,
    c: CortexConfig,
    args: StartArgs,
    home: Option<Seq<char>>,
) -> bool {
    &&& (if args.watch@.len() > 0 {
        strings_view(c.watch.paths@) == expanded_paths(args.watch@, home)
    } else {
        c.watch.paths == old.watch.paths
    })
    &&& c.api.tcp_port == (match args.tcp_port {
        Some(p) => Some(p),
        None => old.api.tcp_port,
    })
    &&& c.general == old.general
    &&& c.storage == old.storage
    &&& c.embedding == old.embedding
    &&& c.chunking == old.chunking
    &&& c.watch.extensions == old.watch.extensions
    &&& c.watch.ignore_patterns == old.watch.ignore_patterns
}

impl StartArgs {
    /// Merges the arguments into `config`, expanding `~/` with `home`.
    pub fn apply_with_home(&self, config: &mut CortexConfig, home: Option<&str>)
        ensures
            merged_config(
                *old(config),
                *final(config),
                *self,
                match home {
                    Some(h) => Some(h@),
                    None => None,
                },
            ),
    {
        let ghost hv: Option<Seq<char>> = match home {
            Some(h) => Some(h@),
            None => None,
        };
        if self.watch.len() > 0 {
            let mut expanded: Vec<String> = Vec::new();
            let mut i: usize = 0;
            while i < self.watch.len()
                invariant
                    i <= self.watch@.len(),
                    hv == (match home {
                        Some(h) => Some(h@),
                        None => None::<Seq<char>>,
                    }),
                    strings_view(expanded@) == expanded_paths(self.watch@, hv).take(i as int),
                decreases self.watch@.len() - i,
            {
                let ghost before = expanded@;
                let e = expand_home(self.watch[i].as_str(), home);
                expanded.push(e);
                assert(strings_view(expanded@) =~= strings_view(before).push(e@));
                assert(expanded_paths(self.watch@, hv).take(i + 1) =~= expanded_paths(
                    self.watch@,
                    hv,
                ).take(i as int).push(expand_home_of(self.watch@[i as int]@, hv)));
                i = i + 1;
            }
            assert(expanded_paths(self.watch@, hv).take(self.watch@.len() as int) =~= expanded_paths(
                self.watch@,
                hv,
            ));
            config.watch.paths = expanded;
        }
        if let Some(port) = self.tcp_port {
            config.api.tcp_port = Some(port);
        }
    }

    /// Merges the arguments into `config`, expanding `~/` with the user's
    /// home directory.
    pub fn apply(&self, config: &mut CortexConfig)
        ensures
            exists|home: Option<Seq<char>>| merged_config(*old(config), *final(config), *self, home),
    {
        let home = home_dir();
        match home {
            Some(h) => {
                self.apply_with_home(config, Some(h.as_str()));
                assert(merged_config(*old(config), *config, *self, Some(h@)));
            },
            None => {
                self.apply_with_home(config, None);
                assert(merged_config(*old(config), *config, *self, None));
            },
        }
    }
}

/// A newline shown as a space.
pub open spec fn flatten_char(c: char) -> char {
    if c == '\n' {
        ' '
    } else {
        c
    }
}

/// The preview of a search hit: its first 200 characters, newlines shown as spaces.
pub open spec fn preview_of(content: Seq<char>) -> Seq<char> {
    let n = if content.len() < 200 {
        content.len()
    } else {
        200
    };
    Seq::new(n, |i: int| flatten_char(content[i]))
}

/// The preview of a search hit's content.
pub fn preview(content: &str) -> (r: String)
    ensures
        r@ == preview_of(content@),
{
    let v = to_chars(content);
    let n = if v.len() < 200 {
        v.len()
    } else {
        200
    };
    let mut out: Vec<char> = Vec::new();
    let mut i: usize = 0;
    while i < n
        invariant
            i <= n <= v@.len(),
            v@ == content@,
            out@ == Seq::new(i as nat, |k: int| flatten_char(v@[k])),
        decreases n - i,
    {
        let c = v[i];
        out.push(if c == '\n' {
            ' '
        } else {
            c
        });
        assert(out@ =~= Seq::new((i + 1) as nat, |k: int| flatten_char(v@[k])));
        i = i + 1;
    }
    assert(out@ =~= preview_of(content@));
    string_from_chars(&out)
}

/// The plural ending for a number of results.
pub fn plural_suffix(total: u64) -> (r: &'static str)
    ensures
        r@ == (if total == 1 {
            ""@
        } else {
            "s"@
        }),
{
    if total == 1 {
        ""
    } else {
        "s"
    }
}

/// `a` followed by `b`.
fn cat(a: &str, b: &str) -> (r: String)
    ensures
        r@ == a@ + b@,
{
    let r = concat3(a, b, "");
    proof {
        reveal_strlit("");
        assert(r@ =~= a@ + b@);
    }
    r
}

/// The text of an optional field, or `default` when it is missing.
pub open spec fn text_or(o: Option<String>, default: Seq<char>) -> Seq<char> {
    match o {
        Some(s) => s@,
        None => default,
    }
}

/// The fields of one hit in the daemon's answer to a search, each `None`
/// when it is missing or not text.
#[derive(Debug)]
pub struct HitFields {
    pub title: Option<String>,
    pub source_path: Option<String>,
    pub content: Option<String>,
}

/// The daemon's answer to a search, as the command reads it: the total
/// (`None` when missing or not a whole number) and the hits (`None` when
/// missing or not a list). Scores are read apart.
#[derive(Debug)]
pub struct SearchReply {
    pub total: Option<u64>,
    pub hits: Option<Vec<HitFields>>,
}

/// The three lines shown for a hit, its score aside.
#[derive(Debug)]
pub struct HitLines {
    /// Rank and title, to be followed by the score.
    pub heading: String,
    pub source: String,
    pub preview: String,
}

/// What `cortex search` shows: a header line, then the lines of each hit.
#[derive(Debug)]
pub struct SearchReport {
    pub header: String,
    pub hits: Vec<HitLines>,
}

/// The total a reply announces, 0 when it announces none.
pub open spec fn reply_total(reply: SearchReply) -> nat {
    match reply.total {
        Some(t) => t as nat,
        None => 0,
    }
}

/// The header of the report for query `q` and `total` results.
pub open spec fn search_header(q: Seq<char>, total: nat) -> Seq<char> {
    if total == 0 {
        "No results found for: \""@ + q + "\""@
    } else {
        "Found "@ + decimal(total) + " result"@ + (if total == 1 {
            ""@
        } else {
            "s"@
        }) + " for: \""@ + q + "\"\n"@
    }
}

/// The lines of hit `h` at position `i` (counted from 0).
pub open spec fn hit_lines_of(i: nat, h: HitFields) -> (Seq<char>, Seq<char>, Seq<char>) {
    (
        decimal(i + 1) + ". "@ + text_or(h.title, "Untitled"@),
        "   "@ + text_or(h.source_path, "unknown"@),
        "   "@ + preview_of(text_or(h.content, ""@)),
    )
}

/// The hits a report shows: none when the total is 0 or there is no list.
pub open spec fn shown_hits(reply: SearchReply) -> Seq<HitFields> {
    if reply_total(reply) == 0 {
        Seq::empty()
    } else {
        match reply.hits {
            Some(v) => v@,
            None => Seq::empty(),
        }
    }
}

/// The report of `cortex search` for `query` and the daemon's reply.
pub fn search_report(query: &str, reply: &SearchReply) -> (r: SearchReport)
    ensures
        r.header@ == search_header(query@, reply_total(*reply)),
        r.hits@.len() == shown_hits(*reply).len(),
        forall|i: int|
            0 <= i < r.hits@.len() ==> hit_lines_of(i as nat, shown_hits(*reply)[i]) == (
                (#[trigger] r.hits@[i]).heading@,
                r.hits@[i].source@,
                r.hits@[i].preview@,
            ),
{
    let total: u64 = match reply.total {
        Some(t) => t,
        None => 0,
    };
    if total == 0 {
        let h = cat(cat("No results found for: \"", query).as_str(), "\"");
        return SearchReport { header: h, hits: Vec::new() };
    }
    let n = decimal_text(total);
    let head = cat(cat("Found ", n.as_str()).as_str(), " result");
    let head = cat(head.as_str(), plural_suffix(total));
    let tail = cat(cat(" for: \"", query).as_str(), "\"\n");
    let header = cat(head.as_str(), tail.as_str());
    assert(header@ =~= search_header(query@, reply_total(*reply)));
    let mut hits: Vec<HitLines> = Vec::new();
    match &reply.hits {
        None => {},
        Some(v) => {
            let mut i: usize = 0;
            while i < v.len()
                invariant
                    i <= v@.len(),
                    shown_hits(*reply) == v@,
                    hits@.len() == i,
                    forall|k: int|
                        0 <= k < i ==> hit_lines_of(k as nat, v@[k]) == (
                            (#[trigger] hits@[k]).heading@,
                            hits@[k].source@,
                            hits@[k].preview@,
                        ),
                decreases v@.len() - i,
            {
                let h = &v[i];
                let rank = decimal_text((i + 1) as u64);
                let title: &str = match &h.title {
                    Some(t) => t.as_str(),
                    None => "Untitled",
                };
                let source: &str = match &h.source_path {
                    Some(t) => t.as_str(),
                    None => "unknown",
                };
                let content: &str = match &h.content {
                    Some(t) => t.as_str(),
                    None => "",
                };
                let heading = cat(cat(rank.as_str(), ". ").as_str(), title);
                let source_line = cat("   ", source);
                let p = preview(content);
                let preview_line = cat("   ", p.as_str());
                let lines = HitLines { heading, source: source_line, preview: preview_line };
                assert(hit_lines_of(i as nat, v@[i as int]) == (lines.heading@, lines.source@, lines.preview@));
                hits.push(lines);
                i = i + 1;
            }
        },
    }
    SearchReport { header, hits }
}

/// The daemon's answer to `GET /status`, as the command reads it: each
/// field `None` when missing or of another kind; a watched path `None` when
/// it is not text.
#[derive(Debug)]
pub struct StatusReply {
    pub status: Option<String>,
    pub uptime_secs: Option<u64>,
    pub document_count: Option<u64>,
    pub chunk_count: Option<u64>,
    pub model: Option<String>,
    pub watched_paths: Option<Vec<Option<String>>>,
}

/// One line `prefix` + the field's text, or none when the field is missing.
pub open spec fn text_line(prefix: Seq<char>, o: Option<String>) -> Seq<Seq<char>> {
    match o {
        Some(s) => seq![prefix + s@],
        None => Seq::empty(),
    }
}

/// One line `prefix` + the number in decimal, or none when it is missing.
pub open spec fn number_line(prefix: Seq<char>, o: Option<u64>) -> Seq<Seq<char>> {
    match o {
        Some(n) => seq![prefix + decimal(n as nat)],
        None => Seq::empty(),
    }
}

/// An uptime as hours, minutes and seconds.
pub open spec fn uptime_text(secs: nat) -> Seq<char> {
    decimal(secs / 3600) + "h "@ + decimal((secs % 3600) / 60) + "m "@ + decimal(secs % 60) + "s"@
}

/// The lines of the watched paths that are text.
pub open spec fn path_lines(ps: Seq<Option<String>>) -> Seq<Seq<char>>
    decreases ps.len(),
{
    if ps.len() == 0 {
        Seq::empty()
    } else {
        path_lines(ps.drop_last()) + text_line("    - "@, ps.last())
    }
}

/// The lines `cortex status` shows for a reply.
pub open spec fn status_lines(r: StatusReply) -> Seq<Seq<char>> {
    seq!["Cortex Status"@, "─────────────────────────────"@] + text_line("  Status:     "@, r.status)
        + match r.uptime_secs {
        Some(u) => seq!["  Uptime:     "@ + uptime_text(u as nat)],
        None => Seq::empty(),
    } + number_line("  Documents:  "@, r.document_count) + number_line("  Chunks:     "@, r.chunk_count)
        + text_line("  Model:      "@, r.model) + match r.watched_paths {
        Some(ps) => seq!["  Watching:"@] + path_lines(ps@),
        None => Seq::empty(),
    }
}

fn push_text_line(out: &mut Vec<String>, prefix: &str, o: &Option<String>)
    ensures
        strings_view(final(out)@) == strings_view(old(out)@) + text_line(prefix@, *o),
{
    let ghost before = strings_view(out@);
    match o {
        Some(s) => {
            out.push(cat(prefix, s.as_str()));
            assert(strings_view(out@) =~= before + text_line(prefix@, *o));
        },
        None => {
            assert(strings_view(out@) =~= before + text_line(prefix@, *o));
        },
    }
}

fn push_number_line(out: &mut Vec<String>, prefix: &str, o: Option<u64>)
    ensures
        strings_view(final(out)@) == strings_view(old(out)@) + number_line(prefix@, o),
{
    let ghost before = strings_view(out@);
    match o {
        Some(n) => {
            out.push(cat(prefix, decimal_text(n).as_str()));
            assert(strings_view(out@) =~= before + number_line(prefix@, o));
        },
        None => {
            assert(strings_view(out@) =~= before + number_line(prefix@, o));
        },
    }
}

/// The lines of `cortex status` for the daemon's reply.
pub fn status_report(reply: &StatusReply) -> (lines: Vec<String>)
    ensures
        strings_view(lines@) == status_lines(*reply),
{
    let mut out: Vec<String> = Vec::new();
    out.push("Cortex Status".to_string());
    out.push("─────────────────────────────".to_string());
    let ghost l0 = strings_view(out@);
    assert(l0 =~= seq!["Cortex Status"@, "─────────────────────────────"@]);
    push_text_line(&mut out, "  Status:     ", &reply.status);
    let ghost l1 = strings_view(out@);
    match reply.uptime_secs {
        Some(u) => {
            let (h, m, sec) = uptime_parts(u);
            let t = cat(decimal_text(h).as_str(), "h ");
            let t = cat(t.as_str(), decimal_text(m).as_str());
            let t = cat(t.as_str(), "m ");
            let t = cat(t.as_str(), decimal_text(sec).as_str());
            let t = cat(t.as_str(), "s");
            assert(t@ =~= uptime_text(u as nat));
            out.push(cat("  Uptime:     ", t.as_str()));
        },
        None => {},
    }
    let ghost l2 = strings_view(out@);
    assert(l2 =~= l1 + match reply.uptime_secs {
        Some(u) => seq!["  Uptime:     "@ + uptime_text(u as nat)],
        None => Seq::<Seq<char>>::empty(),
    });
    push_number_line(&mut out, "  Documents:  ", reply.document_count);
    push_number_line(&mut out, "  Chunks:     ", reply.chunk_count);
    push_text_line(&mut out, "  Model:      ", &reply.model);
    let ghost l3 = strings_view(out@);
    match &reply.watched_paths {
        Some(ps) => {
            out.push("  Watching:".to_string());
            let mut i: usize = 0;
            while i < ps.len()
                invariant
                    i <= ps@.len(),
                    strings_view(out@) == l3 + seq!["  Watching:"@] + path_lines(ps@.take(i as int)),
                decreases ps@.len() - i,
            {
                let ghost b = strings_view(out@);
                assert(ps@.take(i + 1).drop_last() =~= ps@.take(i as int));
                push_text_line(&mut out, "    - ", &ps[i]);
                assert(strings_view(out@) =~= l3 + seq!["  Watching:"@] + path_lines(ps@.take(i + 1)));
                i = i + 1;
            }
            assert(ps@.take(i as int) =~= ps@);
        },
        None => {},
    }
    assert(strings_view(out@) =~= status_lines(*reply));
    out
}

} // verus!
