//! The agent's configuration, read from environment variables, and the
//! restart whitelist with its `*` glob patterns.

use vstd::prelude::*;
use vstd::string::*;
use vstd::utf8::encode_utf8;
use crate::text::{
    has_prefix, has_suffix, is_white_space, lemma_split_on_nonempty, lemma_split_pieces_lack_separator,
    lemma_split_on_concat, lemma_split_on_single_piece, lemma_trim_keeps_absence, lemma_trim_shape,
    split_on, trim, trimmed_bounds,
};

verus! {

/// What a whitelist pattern matches: every `*` stands for any run of
/// characters, the empty run included, and every other character for
/// itself. So `gateway` matches only itself, `adapter-*` the names that
/// begin with `adapter-`, `*-mc` those that end with `-mc`, `*mc*` those
/// that contain `mc`, and `*` every name.
pub open spec fn glob_matches(pattern: Seq<char>, s: Seq<char>) -> bool
    decreases pattern.len() + s.len(),
{
    if pattern.len() == 0 {
        s.len() == 0
    } else if pattern[0] == '*' {
        glob_matches(pattern.drop_first(), s) || (s.len() > 0 && glob_matches(
            pattern,
            s.drop_first(),
        ))
    } else {
        s.len() > 0 && s[0] == pattern[0] && glob_matches(pattern.drop_first(), s.drop_first())
    }
}

/// The characters of `s`, in order.
fn chars_of(s: &str) -> (res: Vec<char>)
    ensures
        res@ == s@,
{
    let n = s.unicode_len();
    let mut out: Vec<char> = Vec::new();
    let mut i: usize = 0;
    while i < n
        invariant
            n == s@.len(),
            i <= n,
            out@ == s@.take(i as int),
        decreases n - i,
    {
        out.push(s.get_char(i));
        assert(s@.take(i + 1) =~= s@.take(i as int).push(s@[i as int]));
        i = i + 1;
    }
    assert(s@.take(n as int) =~= s@);
    out
}

/// A row of `false` of length `n`.
fn falses(n: usize) -> (res: Vec<bool>)
    ensures
        res@.len() == n,
        forall|k: int| 0 <= k < n ==> !res@[k],
{
    let mut out: Vec<bool> = Vec::new();
    let mut i: usize = 0;
    while i < n
        invariant
            i <= n,
            out@.len() == i,
            forall|k: int| 0 <= k < i ==> !out@[k],
        decreases n - i,
    {
        out.push(false);
        i = i + 1;
    }
    out
}

/// Whether the container name `s` matches the whitelist pattern `pattern`.
///
/// Computed row by row over the pattern's suffixes, from the last: the row
/// for `pattern[i..]` holds, for each `j`, whether it matches `s[j..]`; the
/// match against the empty rest of `s` is kept apart, in `next_end`.
pub fn glob_match(pattern: &str, s: &str) -> (res: bool)
    ensures
        res == glob_matches(pattern@, s@),
{
    let p = chars_of(pattern);
    let t = chars_of(s);
    let plen = p.len();
    let slen = t.len();
    // the row for the empty rest of the pattern
    let mut next = falses(slen);
    let mut next_end = true;
    proof {
        assert(p@.skip(plen as int).len() == 0);
        assert(t@.skip(slen as int).len() == 0);
    }
    let mut i = plen;
    while i > 0
        invariant
            i <= plen == p@.len(),
            slen == t@.len(),
            next@.len() == slen,
            forall|k: int| 0 <= k < slen ==> next@[k] == glob_matches(p@.skip(i as int), t@.skip(k)),
            next_end == glob_matches(p@.skip(i as int), t@.skip(slen as int)),
        decreases i,
    {
        i = i - 1;
        let c = p[i];
        let ghost ps = p@.skip(i as int);
        proof {
            assert(ps.drop_first() =~= p@.skip(i + 1));
            assert(ps[0] == c);
        }
        // the empty rest of `s` is matched only by stars
        let cur_end = c == '*' && next_end;
        proof {
            assert(t@.skip(slen as int).len() == 0);
        }
        let mut cur = falses(slen);
        let mut j = slen;
        while j > 0
            invariant
                i < plen == p@.len(),
                slen == t@.len(),
                c == p@[i as int],
                ps == p@.skip(i as int),
                ps.drop_first() == p@.skip(i + 1),
                ps[0] == c,
                j <= slen,
                next@.len() == slen,
                cur@.len() == slen,
                forall|k: int|
                    0 <= k < slen ==> next@[k] == glob_matches(p@.skip(i + 1), t@.skip(k)),
                next_end == glob_matches(p@.skip(i + 1), t@.skip(slen as int)),
                cur_end == glob_matches(ps, t@.skip(slen as int)),
                forall|k: int| j <= k < slen ==> cur@[k] == glob_matches(ps, t@.skip(k)),
            decreases j,
        {
            j = j - 1;
            let after = if j + 1 < slen { cur[j + 1] } else { cur_end };
            let after_next = if j + 1 < slen { next[j + 1] } else { next_end };
            let v = if c == '*' {
                next[j] || after
            } else {
                t[j] == c && after_next
            };
            proof {
                let ts = t@.skip(j as int);
                assert(ts.drop_first() =~= t@.skip(j + 1));
                assert(ts[0] == t@[j as int]);
                assert(v == glob_matches(ps, ts));
            }
            cur.set(j, v);
        }
        next = cur;
        next_end = cur_end;
    }
    proof {
        assert(p@.skip(0) =~= p@);
        assert(t@.skip(0) =~= t@);
        assert(t@.skip(slen as int).len() == 0);
    }
    if slen == 0 {
        next_end
    } else {
        next[0]
    }
}

/// The pattern `*` matches every container name.
pub proof fn lemma_star_matches_every_name(s: Seq<char>)
    ensures
        glob_matches(seq!['*'], s),
    decreases s.len(),
{
    assert(seq!['*'][0] == '*');
    assert(seq!['*'].drop_first().len() == 0);
    assert(glob_matches(seq!['*'].drop_first(), s) == (s.len() == 0));
    if s.len() > 0 {
        lemma_star_matches_every_name(s.drop_first());
    }
}

/// A pattern without `*` matches exactly the name equal to it.
pub proof fn lemma_plain_pattern_matches_only_itself(pattern: Seq<char>, s: Seq<char>)
    requires
        !pattern.contains('*'),
    ensures
        glob_matches(pattern, s) <==> pattern == s,
    decreases pattern.len(),
{
    if pattern.len() > 0 {
        assert(pattern[0] != '*');
        assert(!pattern.drop_first().contains('*')) by {
            if pattern.drop_first().contains('*') {
                let k = choose|k: int| 0 <= k < pattern.drop_first().len() && pattern.drop_first()[k] == '*';
                assert(pattern[k + 1] == '*');
            }
        }
        if s.len() > 0 {
            lemma_plain_pattern_matches_only_itself(pattern.drop_first(), s.drop_first());
            if pattern.drop_first() == s.drop_first() && s[0] == pattern[0] {
                assert forall|k: int| 0 <= k < pattern.len() implies pattern[k] == s[k] by {
                    if k > 0 {
                        assert(pattern.drop_first()[k - 1] == s.drop_first()[k - 1]);
                    }
                }
                assert(pattern =~= s);
            }
            if pattern == s {
                assert(pattern.drop_first() =~= s.drop_first());
            }
        }
    } else {
        if s.len() == 0 {
            assert(pattern =~= s);
        }
    }
}

/// `prefix*`, with no `*` in `prefix`, matches exactly the names that begin
/// with `prefix`.
pub proof fn lemma_prefix_pattern(prefix: Seq<char>, s: Seq<char>)
    requires
        !prefix.contains('*'),
    ensures
        glob_matches(prefix.push('*'), s) <==> has_prefix(s, prefix),
    decreases prefix.len(),
{
    let pattern = prefix.push('*');
    if prefix.len() == 0 {
        assert(pattern =~= seq!['*']);
        lemma_star_matches_every_name(s);
        assert(s.take(0) =~= prefix);
    } else {
        assert(pattern[0] == prefix[0]);
        assert(prefix[0] != '*');
        assert(pattern.drop_first() =~= prefix.drop_first().push('*'));
        assert(!prefix.drop_first().contains('*')) by {
            if prefix.drop_first().contains('*') {
                let k = choose|k: int| 0 <= k < prefix.drop_first().len() && prefix.drop_first()[k] == '*';
                assert(prefix[k + 1] == '*');
            }
        }
        if s.len() > 0 {
            lemma_prefix_pattern(prefix.drop_first(), s.drop_first());
            if has_prefix(s, prefix) {
                assert(s.take(prefix.len() as int)[0] == s[0]);
                assert(s.drop_first().take(prefix.drop_first().len() as int) =~= prefix.drop_first())
                    by {
                    assert forall|k: int| 0 <= k < prefix.len() - 1 implies s.drop_first().take(
                        prefix.len() - 1,
                    )[k] == prefix.drop_first()[k] by {
                        assert(s.take(prefix.len() as int)[k + 1] == prefix[k + 1]);
                    }
                }
            }
            if s[0] == prefix[0] && has_prefix(s.drop_first(), prefix.drop_first()) {
                assert(s.take(prefix.len() as int) =~= prefix) by {
                    assert forall|k: int| 0 <= k < prefix.len() implies s.take(
                        prefix.len() as int,
                    )[k] == prefix[k] by {
                        if k > 0 {
                            assert(s.drop_first().take(prefix.len() - 1)[k - 1] == prefix.drop_first()[k
                                - 1]);
                        }
                    }
                }
            }
        }
    }
}

/// `*suffix`, with no `*` in `suffix`, matches exactly the names that end
/// with `suffix`.
pub proof fn lemma_suffix_pattern(suffix: Seq<char>, s: Seq<char>)
    requires
        !suffix.contains('*'),
    ensures
        glob_matches(seq!['*'] + suffix, s) <==> has_suffix(s, suffix),
    decreases s.len(),
{
    let pattern = seq!['*'] + suffix;
    assert(pattern[0] == '*');
    assert(pattern.drop_first() =~= suffix);
    lemma_plain_pattern_matches_only_itself(suffix, s);
    if s.len() > 0 {
        lemma_suffix_pattern(suffix, s.drop_first());
        if s.len() > suffix.len() {
            assert(s.drop_first().skip(s.len() - 1 - suffix.len()) =~= s.skip(
                s.len() - suffix.len(),
            ));
            assert(s != suffix);
        } else if s.len() == suffix.len() {
            assert(s.skip(0) =~= s);
        }
    } else {
        if suffix.len() == 0 {
            assert(s.skip(0) =~= s);
            assert(s =~= suffix);
        }
    }
}

/// `prefix*suffix`, with no `*` in `prefix` or `suffix`, matches exactly
/// the names that begin with `prefix`, end with `suffix`, and are long
/// enough to hold both apart, whatever the length of the run between them.
pub proof fn lemma_middle_star_pattern(prefix: Seq<char>, suffix: Seq<char>, s: Seq<char>)
    requires
        !prefix.contains('*'),
        !suffix.contains('*'),
    ensures
        glob_matches(prefix + seq!['*'] + suffix, s) <==> {
            &&& s.len() >= prefix.len() + suffix.len()
            &&& s.take(prefix.len() as int) == prefix
            &&& s.skip(s.len() - suffix.len()) == suffix
        },
    decreases prefix.len(),
{
    let pattern = prefix + seq!['*'] + suffix;
    if prefix.len() == 0 {
        assert(pattern =~= seq!['*'] + suffix);
        lemma_suffix_pattern(suffix, s);
        assert(s.take(0) =~= prefix);
    } else {
        let p1 = prefix.drop_first();
        assert(pattern[0] == prefix[0]);
        assert(prefix[0] != '*');
        assert(pattern.drop_first() =~= p1 + seq!['*'] + suffix);
        assert(!p1.contains('*')) by {
            if p1.contains('*') {
                let k = choose|k: int| 0 <= k < p1.len() && p1[k] == '*';
                assert(prefix[k + 1] == '*');
            }
        }
        if s.len() > 0 {
            let s1 = s.drop_first();
            lemma_middle_star_pattern(p1, suffix, s1);
            if s.len() >= prefix.len() + suffix.len() {
                assert(s1.skip(s1.len() - suffix.len()) =~= s.skip(s.len() - suffix.len()));
                if s.take(prefix.len() as int) == prefix {
                    assert(s.take(prefix.len() as int)[0] == s[0]);
                    assert(s1.take(p1.len() as int) =~= p1) by {
                        assert forall|k: int| 0 <= k < p1.len() implies s1.take(p1.len() as int)[k]
                            == p1[k] by {
                            assert(s.take(prefix.len() as int)[k + 1] == prefix[k + 1]);
                        }
                    }
                }
                if s[0] == prefix[0] && s1.take(p1.len() as int) == p1 {
                    assert(s.take(prefix.len() as int) =~= prefix) by {
                        assert forall|k: int| 0 <= k < prefix.len() implies s.take(
                            prefix.len() as int,
                        )[k] == prefix[k] by {
                            if k > 0 {
                                assert(s1.take(p1.len() as int)[k - 1] == p1[k - 1]);
                            }
                        }
                    }
                }
            }
        }
    }
}

/// Some stretch of `s` spells `x`.
pub open spec fn contains_run(s: Seq<char>, x: Seq<char>) -> bool {
    exists|i: int| 0 <= i <= s.len() && has_prefix(#[trigger] s.skip(i), x)
}

/// `*x*`, with no `*` in `x`, matches exactly the names that contain `x`.
pub proof fn lemma_contains_pattern(x: Seq<char>, s: Seq<char>)
    requires
        !x.contains('*'),
    ensures
        glob_matches(seq!['*'] + x.push('*'), s) <==> contains_run(s, x),
    decreases s.len(),
{
    let pattern = seq!['*'] + x.push('*');
    assert(pattern[0] == '*');
    assert(pattern.drop_first() =~= x.push('*'));
    lemma_prefix_pattern(x, s);
    assert(s.skip(0) =~= s);
    if s.len() > 0 {
        lemma_contains_pattern(x, s.drop_first());
        if contains_run(s.drop_first(), x) {
            let i = choose|i: int| 0 <= i <= s.drop_first().len() && has_prefix(
                #[trigger] s.drop_first().skip(i),
                x,
            );
            assert(s.drop_first().skip(i) =~= s.skip(i + 1));
        }
        if contains_run(s, x) && !has_prefix(s, x) {
            let i = choose|i: int| 0 <= i <= s.len() && has_prefix(#[trigger] s.skip(i), x);
            assert(i > 0);
            assert(s.drop_first().skip(i - 1) =~= s.skip(i));
        }
    } else {
        if contains_run(s, x) {
            let i = choose|i: int| 0 <= i <= s.len() && has_prefix(#[trigger] s.skip(i), x);
            assert(i == 0);
        }
    }
}

/// Every pattern matches the name spelled like the pattern itself.
pub proof fn lemma_pattern_matches_itself(pattern: Seq<char>)
    ensures
        glob_matches(pattern, pattern),
    decreases pattern.len(),
{
    if pattern.len() > 0 {
        lemma_pattern_matches_itself(pattern.drop_first());
        if pattern[0] == '*' {
            // `*` takes the first character, then matches the empty run
            assert(glob_matches(pattern, pattern.drop_first()));
        }
    }
}

/// The restart whitelist that the comma-separated text `raw` names: its
/// pieces between commas, trimmed of whitespace, the empty ones left out.
pub open spec fn whitelist_entries(raw: Seq<char>) -> Seq<Seq<char>> {
    kept(split_on(raw, ','))
}

/// The views of a list of strings.
pub open spec fn views(v: Seq<String>) -> Seq<Seq<char>> {
    v.map_values(|s: String| s@)
}

/// The pieces of `pieces`, trimmed, the empty ones left out, in order.
pub open spec fn kept(pieces: Seq<Seq<char>>) -> Seq<Seq<char>> {
    pieces.map_values(|p: Seq<char>| trim(p)).filter(|e: Seq<char>| e.len() > 0)
}

proof fn lemma_kept_push(pieces: Seq<Seq<char>>, p: Seq<char>)
    ensures
        kept(pieces.push(p)) == if trim(p).len() > 0 {
            kept(pieces).push(trim(p))
        } else {
            kept(pieces)
        },
{
    let f = |q: Seq<char>| trim(q);
    let pred = |e: Seq<char>| e.len() > 0;
    assert(pieces.push(p).map_values(f) =~= pieces.map_values(f).push(trim(p)));
    reveal_with_fuel(Seq::filter, 1);
    assert(pieces.map_values(f).push(trim(p)).drop_last() =~= pieces.map_values(f));
}

/// Parses the comma-separated restart whitelist.
fn parse_whitelist(raw: &str) -> (res: Vec<String>)
    ensures
        views(res@) == whitelist_entries(raw@),
{
    let n = raw.unicode_len();
    let mut out: Vec<String> = Vec::new();
    let mut seg_start: usize = 0;
    let mut i: usize = 0;
    proof {
        assert(raw@.take(0) =~= Seq::<char>::empty());
        assert(raw@.subrange(0, 0) =~= Seq::<char>::empty());
        assert(split_on(raw@.take(0), ',').drop_last() =~= Seq::<Seq<char>>::empty());
        reveal_with_fuel(Seq::filter, 1);
        assert(views(out@) =~= kept(Seq::<Seq<char>>::empty()));
    }
    while i < n
        invariant
            n == raw@.len(),
            seg_start <= i <= n,
            split_on(raw@.take(i as int), ',').last() == raw@.subrange(seg_start as int, i as int),
            views(out@) == kept(split_on(raw@.take(i as int), ',').drop_last()),
        decreases n - i,
    {
        let ghost pieces = split_on(raw@.take(i as int), ',');
        proof {
            lemma_split_on_nonempty(raw@.take(i as int), ',');
            assert(raw@.take(i + 1).drop_last() =~= raw@.take(i as int));
            assert(raw@.take(i + 1).last() == raw@[i as int]);
        }
        let c = raw.get_char(i);
        if c == ',' {
            let (a, b) = trimmed_bounds(raw, seg_start, i);
            let ghost old_out = views(out@);
            if a < b {
                out.push(raw.substring_char(a, b).to_owned());
            }
            proof {
                lemma_kept_push(pieces.drop_last(), pieces.last());
                assert(pieces.drop_last().push(pieces.last()) =~= pieces);
                assert(views(out@) =~= if a < b { old_out.push(trim(pieces.last())) } else { old_out });
                assert(split_on(raw@.take(i + 1), ',') == pieces.push(Seq::<char>::empty()));
                assert(pieces.push(Seq::<char>::empty()).drop_last() =~= pieces);
                assert(raw@.subrange(i + 1, i + 1) =~= Seq::<char>::empty());
            }
            seg_start = i + 1;
        } else {
            proof {
                let next = pieces.update(pieces.len() - 1, pieces.last().push(c));
                assert(split_on(raw@.take(i + 1), ',') == next);
                assert(next.drop_last() =~= pieces.drop_last());
                assert(raw@.subrange(seg_start as int, i + 1) =~= raw@.subrange(seg_start as int, i as int).push(c));
            }
        }
        i = i + 1;
    }
    let ghost pieces = split_on(raw@.take(n as int), ',');
    proof {
        lemma_split_on_nonempty(raw@.take(n as int), ',');
        assert(raw@.take(n as int) =~= raw@);
    }
    let (a, b) = trimmed_bounds(raw, seg_start, n);
    let ghost old_out = views(out@);
    if a < b {
        out.push(raw.substring_char(a, b).to_owned());
    }
    proof {
        lemma_kept_push(pieces.drop_last(), pieces.last());
        assert(pieces.drop_last().push(pieces.last()) =~= pieces);
        assert(views(out@) =~= if a < b { old_out.push(trim(pieces.last())) } else { old_out });
    }
    out
}

/// The entries of a list of pieces joined together are the entries of each
/// part, in order.
proof fn lemma_kept_concat(x: Seq<Seq<char>>, y: Seq<Seq<char>>)
    ensures
        kept(x + y) == kept(x) + kept(y),
{
    let f = |p: Seq<char>| trim(p);
    let pred = |e: Seq<char>| e.len() > 0;
    assert((x + y).map_values(f) =~= x.map_values(f) + y.map_values(f));
    Seq::filter_distributes_over_add(x.map_values(f), y.map_values(f), pred);
}

/// Whitelists joined by a comma: the entries of the whole are those of the
/// first part followed by those of the second. No entry is lost, however
/// many there are.
pub proof fn lemma_whitelist_concat(a: Seq<char>, b: Seq<char>)
    ensures
        whitelist_entries(a + seq![','] + b) == whitelist_entries(a) + whitelist_entries(b),
{
    lemma_split_on_concat(a, b, ',');
    lemma_kept_concat(split_on(a, ','), split_on(b, ','));
}

/// A whitelist text without a comma is one entry, its trim, unless that is
/// empty.
pub proof fn lemma_whitelist_single_piece(a: Seq<char>)
    requires
        !a.contains(','),
    ensures
        trim(a).len() > 0 ==> whitelist_entries(a) == seq![trim(a)],
        trim(a).len() == 0 ==> whitelist_entries(a).len() == 0,
{
    lemma_split_on_single_piece(a, ',');
    lemma_kept_push(Seq::<Seq<char>>::empty(), a);
    assert(Seq::<Seq<char>>::empty().push(a) =~= seq![a]);
    reveal_with_fuel(Seq::filter, 1);
    assert(kept(Seq::<Seq<char>>::empty()) =~= Seq::<Seq<char>>::empty());
    assert(Seq::<Seq<char>>::empty().push(trim(a)) =~= seq![trim(a)]);
}

/// A blank whitelist text names no container.
pub proof fn lemma_whitelist_of_blank_text(a: Seq<char>)
    requires
        a.len() == 0,
    ensures
        whitelist_entries(a).len() == 0,
{
    assert(!a.contains(','));
    lemma_whitelist_single_piece(a);
    assert(trim(a).len() == 0);
}

/// Every whitelist entry is non-empty, neither begins nor ends with
/// whitespace, and holds no comma.
pub proof fn lemma_whitelist_entries_trimmed(raw: Seq<char>, i: int)
    requires
        0 <= i < whitelist_entries(raw).len(),
    ensures
        whitelist_entries(raw)[i].len() > 0,
        !is_white_space(whitelist_entries(raw)[i][0]),
        !is_white_space(whitelist_entries(raw)[i].last()),
        !whitelist_entries(raw)[i].contains(','),
{
    let pieces = split_on(raw, ',');
    let mapped = pieces.map_values(|p: Seq<char>| trim(p));
    let pred = |e: Seq<char>| e.len() > 0;
    let e = whitelist_entries(raw)[i];
    mapped.lemma_filter_pred(pred, i);
    assert(mapped.filter(pred).contains(e));
    mapped.lemma_filter_contains_rev(pred, e);
    let j = choose|j: int| 0 <= j < mapped.len() && mapped[j] == e;
    lemma_trim_shape(pieces[j]);
    lemma_split_pieces_lack_separator(raw, ',', j);
    lemma_trim_keeps_absence(pieces[j], ',');
}

/// The agent's settings.
#[derive(Clone, Debug)]
pub struct Config {
    /// Address the HTTP server listens on; bind it to a VPN address only.
    pub bind: String,
    /// The bearer token that every protected request must present.
    pub token: String,
    /// The ops repository for `git pull` and `docker compose up`; `None`
    /// turns the compose endpoint off.
    pub ops_repo_path: Option<String>,
    /// The compose file name, relative to the ops repository.
    pub compose_file: String,
    /// Glob patterns of the containers that may be restarted; when empty, no
    /// container may be.
    pub restart_whitelist: Vec<String>,
    /// URL of node_exporter, the source of host metrics.
    pub metrics_url: String,
    /// URL of the docker socket proxy.
    pub docker_proxy_url: String,
    /// Path of the audit log database.
    pub audit_db: String,
}

/// Some pattern of `whitelist` matches the container name `name`.
pub open spec fn restart_allowed(whitelist: Seq<Seq<char>>, name: Seq<char>) -> bool {
    exists|i: int| 0 <= i < whitelist.len() && glob_matches(#[trigger] whitelist[i], name)
}

impl Config {
    /// Whether the container `container_name` matches a pattern of the
    /// restart whitelist.
    pub fn is_restart_allowed(&self, container_name: &str) -> (res: bool)
        ensures
            res == restart_allowed(views(self.restart_whitelist@), container_name@),
    {
        let n = self.restart_whitelist.len();
        let mut i: usize = 0;
        while i < n
            invariant
                n == self.restart_whitelist@.len(),
                i <= n,
                forall|j: int|
                    0 <= j < i ==> !glob_matches(
                        #[trigger] views(self.restart_whitelist@)[j],
                        container_name@,
                    ),
            decreases n - i,
        {
            if glob_match(self.restart_whitelist[i].as_str(), container_name) {
                assert(views(self.restart_whitelist@)[i as int] == self.restart_whitelist@[i as int]@);
                return true;
            }
            i = i + 1;
        }
        false
    }
}

/// A container may be restarted exactly when some pattern of the whitelist,
/// at whatever position, matches its name.
pub proof fn lemma_restart_allowed_by_some_pattern(whitelist: Seq<Seq<char>>, name: Seq<char>, i: int)
    requires
        0 <= i < whitelist.len(),
    ensures
        glob_matches(whitelist[i], name) ==> restart_allowed(whitelist, name),
        restart_allowed(whitelist, name) ==> exists|k: int|
            0 <= k < whitelist.len() && glob_matches(#[trigger] whitelist[k], name),
{
}

/// A whitelist of one pattern allows exactly what the pattern matches.
pub proof fn lemma_single_pattern_whitelist(pattern: Seq<char>, name: Seq<char>)
    ensures
        restart_allowed(seq![pattern], name) <==> glob_matches(pattern, name),
{
    if glob_matches(pattern, name) {
        assert(seq![pattern][0] == pattern);
    }
}

/// Two whitelists put together allow what either allows.
pub proof fn lemma_whitelist_union(w1: Seq<Seq<char>>, w2: Seq<Seq<char>>, name: Seq<char>)
    ensures
        restart_allowed(w1 + w2, name) <==> restart_allowed(w1, name) || restart_allowed(w2, name),
{
    let w = w1 + w2;
    if restart_allowed(w, name) {
        let i = choose|i: int| 0 <= i < w.len() && glob_matches(#[trigger] w[i], name);
        if i < w1.len() {
            assert(w1[i] == w[i]);
        } else {
            assert(w2[i - w1.len()] == w[i]);
        }
    }
    if restart_allowed(w1, name) {
        let i = choose|i: int| 0 <= i < w1.len() && glob_matches(#[trigger] w1[i], name);
        assert(w[i] == w1[i]);
    }
    if restart_allowed(w2, name) {
        let i = choose|i: int| 0 <= i < w2.len() && glob_matches(#[trigger] w2[i], name);
        assert(w[w1.len() + i] == w2[i]);
    }
}

/// The views of a list of strings are the strings' views, one for one.
pub proof fn lemma_views(v: Seq<String>, i: int)
    requires
        0 <= i < v.len(),
    ensures
        views(v).len() == v.len(),
        views(v)[i] == v[i]@,
{
}

/// An empty whitelist lets no container be restarted.
pub proof fn lemma_empty_whitelist_allows_nothing(name: Seq<char>)
    ensures
        !restart_allowed(Seq::<Seq<char>>::empty(), name),
{
}

/// A whitelist that holds `*` lets every container be restarted.
pub proof fn lemma_star_in_whitelist_allows_all(whitelist: Seq<Seq<char>>, name: Seq<char>)
    requires
        whitelist.contains(seq!['*']),
    ensures
        restart_allowed(whitelist, name),
{
    let i = choose|i: int| 0 <= i < whitelist.len() && whitelist[i] == seq!['*'];
    lemma_star_matches_every_name(name);
    assert(glob_matches(whitelist[i], name));
}

/// Adding a pattern to the whitelist never takes a permission away.
pub proof fn lemma_whitelist_monotone(whitelist: Seq<Seq<char>>, pattern: Seq<char>, name: Seq<char>)
    requires
        restart_allowed(whitelist, name),
    ensures
        restart_allowed(whitelist.push(pattern), name),
{
    let i = choose|i: int| 0 <= i < whitelist.len() && glob_matches(#[trigger] whitelist[i], name);
    assert(whitelist.push(pattern)[i] == whitelist[i]);
}

/// The values of the agent's environment variables, as the process found
/// them: `None` for a variable that is unset or not valid unicode.
pub struct EnvValues {
    /// `PENGAGENT_TOKEN`
    pub token: Option<String>,
    /// `PENGAGENT_BIND`
    pub bind: Option<String>,
    /// `PENGAGENT_OPS_REPO_PATH`
    pub ops_repo_path: Option<String>,
    /// `PENGAGENT_COMPOSE_FILE`
    pub compose_file: Option<String>,
    /// `PENGAGENT_RESTART_WHITELIST`
    pub restart_whitelist: Option<String>,
    /// `PENGAGENT_METRICS_URL`
    pub metrics_url: Option<String>,
    /// `PENGAGENT_DOCKER_PROXY_URL`
    pub docker_proxy_url: Option<String>,
    /// `PENGAGENT_AUDIT_DB`
    pub audit_db: Option<String>,
}

/// Why the environment gives no configuration.
#[derive(Clone, Copy, Debug, PartialEq, Eq, Structural)]
pub enum ConfigError {
    /// `PENGAGENT_TOKEN` is unset.
    MissingToken,
    /// `PENGAGENT_TOKEN` is the empty string.
    EmptyToken,
    /// `PENGAGENT_TOKEN` has fewer than 16 bytes; `len` is its length in bytes.
    ShortToken { len: usize },
}

/// The fewest bytes a token may have.
pub const MIN_TOKEN_BYTES: usize = 16;

/// The length in bytes of the UTF-8 encoding of `s`, which `str::len` gives.
pub open spec fn utf8_len(s: Seq<char>) -> nat {
    encode_utf8(s).len()
}

/// Listen address used when `PENGAGENT_BIND` is unset.
pub open spec fn default_bind() -> Seq<char> {
    "0.0.0.0:9000"@
}

/// Compose file used when `PENGAGENT_COMPOSE_FILE` is unset.
pub open spec fn default_compose_file() -> Seq<char> {
    "docker-compose.yml"@
}

/// node_exporter URL used when `PENGAGENT_METRICS_URL` is unset.
pub open spec fn default_metrics_url() -> Seq<char> {
    "http://localhost:9100/metrics"@
}

/// Docker socket proxy URL used when `PENGAGENT_DOCKER_PROXY_URL` is unset.
pub open spec fn default_docker_proxy_url() -> Seq<char> {
    "http://localhost:2375"@
}

/// Audit database used when `PENGAGENT_AUDIT_DB` is unset.
pub open spec fn default_audit_db() -> Seq<char> {
    "/var/lib/pengagent/audit.db"@
}

/// The value of a variable, or `default` where it is unset.
pub open spec fn value_or(v: Option<String>, default: Seq<char>) -> Seq<char> {
    match v {
        Some(s) => s@,
        None => default,
    }
}

/// The view of an optional string.
pub open spec fn opt_view(v: Option<String>) -> Option<Seq<char>> {
    match v {
        Some(s) => Some(s@),
        None => None,
    }
}

/// The value of a variable where it is set and not empty.
pub open spec fn nonempty_value(v: Option<String>) -> Option<Seq<char>> {
    match v {
        Some(s) => if s@.len() > 0 {
            Some(s@)
        } else {
            None
        },
        None => None,
    }
}

/// What `Config::from_env` answers for the token `token`, where it refuses.
pub open spec fn token_error(token: Option<String>) -> Option<ConfigError> {
    match token {
        None => Some(ConfigError::MissingToken),
        Some(t) => if t@.len() == 0 {
            Some(ConfigError::EmptyToken)
        } else if utf8_len(t@) < MIN_TOKEN_BYTES {
            Some(ConfigError::ShortToken { len: utf8_len(t@) as usize })
        } else {
            None
        },
    }
}

/// `cfg` is the configuration that the environment `env` describes.
pub open spec fn config_of(env: EnvValues, cfg: Config) -> bool {
    &&& env.token matches Some(t) && cfg.token@ == t@
    &&& cfg.bind@ == value_or(env.bind, default_bind())
    &&& opt_view(cfg.ops_repo_path) == nonempty_value(env.ops_repo_path)
    &&& cfg.compose_file@ == value_or(env.compose_file, default_compose_file())
    &&& views(cfg.restart_whitelist@) == whitelist_entries(
        value_or(env.restart_whitelist, Seq::<char>::empty()),
    )
    &&& cfg.metrics_url@ == value_or(env.metrics_url, default_metrics_url())
    &&& cfg.docker_proxy_url@ == value_or(env.docker_proxy_url, default_docker_proxy_url())
    &&& cfg.audit_db@ == value_or(env.audit_db, default_audit_db())
}

/// A token that the configuration accepts has at least 16 bytes.
pub proof fn lemma_accepted_token_long_enough(token: String)
    requires
        token_error(Some(token)) is None,
    ensures
        utf8_len(token@) >= MIN_TOKEN_BYTES,
{
}

/// The token rule, stated over the token's UTF-8 bytes: an unset token is
/// missing, an empty one is empty, one of 1 to 15 bytes is too short (and
/// the error carries its byte count), and every token of 16 bytes or more is
/// accepted, however long.
pub proof fn lemma_token_rule(token: Option<String>)
    ensures
        token is None ==> token_error(token) == Some(ConfigError::MissingToken),
        token matches Some(t) ==> (t@.len() == 0 ==> token_error(token) == Some(
            ConfigError::EmptyToken,
        )),
        token matches Some(t) ==> (t@.len() > 0 && encode_utf8(t@).len() < 16 ==> token_error(
            token,
        ) == Some(ConfigError::ShortToken { len: encode_utf8(t@).len() as usize })),
        token matches Some(t) ==> (encode_utf8(t@).len() >= 16 ==> token_error(token) is None),
{
    if let Some(t) = token {
        if t@.len() == 0 {
            assert(t@ =~= Seq::<char>::empty());
        }
    }
}

/// What the configuration keeps of the environment: a set variable is kept
/// verbatim (the ops repository path only when it is not empty), and an
/// unset one takes its documented default.
pub proof fn lemma_config_keeps_the_environment(env: EnvValues, cfg: Config)
    requires
        config_of(env, cfg),
    ensures
        env.token matches Some(t) && cfg.token@ == t@,
        env.bind matches Some(b) ==> cfg.bind@ == b@,
        env.bind is None ==> cfg.bind@ == "0.0.0.0:9000"@,
        env.ops_repo_path matches Some(p) ==> (p@.len() > 0 ==> (cfg.ops_repo_path matches Some(
            q,
        ) && q@ == p@)),
        env.ops_repo_path matches Some(p) ==> (p@.len() == 0 ==> cfg.ops_repo_path is None),
        env.ops_repo_path is None ==> cfg.ops_repo_path is None,
        env.compose_file matches Some(f) ==> cfg.compose_file@ == f@,
        env.compose_file is None ==> cfg.compose_file@ == "docker-compose.yml"@,
        env.restart_whitelist is None ==> cfg.restart_whitelist@.len() == 0,
        env.restart_whitelist matches Some(w) ==> views(cfg.restart_whitelist@)
            == whitelist_entries(w@),
        env.metrics_url matches Some(u) ==> cfg.metrics_url@ == u@,
        env.metrics_url is None ==> cfg.metrics_url@ == "http://localhost:9100/metrics"@,
        env.docker_proxy_url matches Some(u) ==> cfg.docker_proxy_url@ == u@,
        env.docker_proxy_url is None ==> cfg.docker_proxy_url@ == "http://localhost:2375"@,
        env.audit_db matches Some(d) ==> cfg.audit_db@ == d@,
        env.audit_db is None ==> cfg.audit_db@ == "/var/lib/pengagent/audit.db"@,
{
    if env.restart_whitelist is None {
        lemma_whitelist_of_blank_text(Seq::<char>::empty());
        assert(views(cfg.restart_whitelist@).len() == cfg.restart_whitelist@.len());
    }
}

/// The value of a variable, or `default` where it is unset.
fn or_default(v: Option<String>, default: &str) -> (res: String)
    ensures
        res@ == value_or(v, default@),
{
    match v {
        Some(s) => s,
        None => default.to_owned(),
    }
}

impl Config {
    /// The configuration that the environment variables describe.
    ///
    /// `PENGAGENT_TOKEN` is required and must have at least 16 bytes; every
    /// other variable has a default. The whitelist is a comma-separated list
    /// of patterns, trimmed, empty ones dropped.
    pub fn from_env(env: EnvValues) -> (res: Result<Config, ConfigError>)
        ensures
            match res {
                Ok(cfg) => token_error(env.token) is None && config_of(env, cfg),
                Err(e) => token_error(env.token) == Some(e),
            },
    {
        let ghost env0 = env;
        let token = match env.token {
            Some(t) => t,
            None => {
                return Err(ConfigError::MissingToken);
            },
        };
        if token.as_str().is_empty() {
            return Err(ConfigError::EmptyToken);
        }
        let bytes = token.as_str().as_bytes();
        let len = bytes.len();
        if len < MIN_TOKEN_BYTES {
            return Err(ConfigError::ShortToken { len });
        }
        let bind = or_default(env.bind, "0.0.0.0:9000");
        let ops_repo_path = match env.ops_repo_path {
            Some(p) => if p.as_str().is_empty() {
                None
            } else {
                Some(p)
            },
            None => None,
        };
        let compose_file = or_default(env.compose_file, "docker-compose.yml");
        let raw_whitelist = or_default(env.restart_whitelist, "");
        proof {
            reveal_strlit("");
            assert(len == utf8_len(token@));
            assert(token_error(env0.token) is None);
        }
        let restart_whitelist = parse_whitelist(raw_whitelist.as_str());
        let metrics_url = or_default(env.metrics_url, "http://localhost:9100/metrics");
        let docker_proxy_url = or_default(env.docker_proxy_url, "http://localhost:2375");
        let audit_db = or_default(env.audit_db, "/var/lib/pengagent/audit.db");
        Ok(
            Config {
                bind,
                token,
                ops_repo_path,
                compose_file,
                restart_whitelist,
                metrics_url,
                docker_proxy_url,
                audit_db,
            },
        )
    }
}

} // verus!
