//! The firewall rule lifecycle: which rules one run installs, and how
//! the run finds and removes exactly its own rules afterwards. Every
//! rule carries the run's tag as a comment, and cleanup matches that
//! comment literally, so one run's cleanup can never touch another
//! run's rules.

use vstd::prelude::*;

use crate::addr::Ipv4;
use crate::error::Error;
use crate::text::{
    all_digits, contains_bytes, contains_seq, copy_bytes, dec_value, is_ws, match_at, parse_u16,
    push_bytes,
};

verus! {

/// One step of the firewall/forwarding setup. The three rule steps
/// carry the run's tag; the two proxy-ARP toggles and the host route
/// are kernel settings without one.
#[derive(Debug, PartialEq, Eq)]
pub enum FirewallStep {
    /// nat POSTROUTING: rewrite the source of traffic leaving `out_if`
    /// to that interface's current address.
    Masquerade { out_if: Vec<u8>, tag: Vec<u8> },
    /// nat POSTROUTING: rewrite traffic from the container endpoint to
    /// the requested source address.
    SourceNat { container: Ipv4, source: Ipv4, tag: Vec<u8> },
    /// filter FORWARD: accept traffic from the container endpoint.
    ForwardAccept { container: Ipv4, tag: Vec<u8> },
    /// Enable proxy-ARP host-wide.
    EnableProxyArpAll,
    /// Enable proxy-ARP on the external interface.
    EnableProxyArpIf { out_if: Vec<u8> },
    /// Route the requested source address into the host side of the
    /// tunnel, so proxied ARP traffic finds it.
    AddHostRoute { source: Ipv4, host_ifindex: i32 },
}

/// Plans one run's firewall and forwarding setup.
///
/// Without a requested source address the run installs exactly one
/// MASQUERADE rule and one FORWARD-accept rule, both carrying the
/// run's tag, and none of the SNAT, proxy-ARP or host-route steps.
/// With a requested source address it installs the SNAT rule toward
/// that address, enables proxy-ARP twice (host-wide and on the
/// external interface), routes the address into the host side of the
/// tunnel, and installs the FORWARD-accept rule.
pub fn plan_firewall_setup(
    source_ip: Option<Ipv4>,
    out_if: &[u8],
    container: Ipv4,
    host_ifindex: i32,
    tag: &[u8],
) -> (r: Vec<FirewallStep>)
    ensures
        source_ip is None ==> {
            &&& r@.len() == 2
            &&& (r@[0] matches FirewallStep::Masquerade { out_if: o, tag: t } && o@ == out_if@
                && t@ == tag@)
            &&& (r@[1] matches FirewallStep::ForwardAccept { container: c, tag: t } && c
                == container && t@ == tag@)
        },
        source_ip matches Some(ip) ==> {
            &&& r@.len() == 5
            &&& (r@[0] matches FirewallStep::SourceNat { container: c, source: s, tag: t } && c
                == container && s == ip && t@ == tag@)
            &&& r@[1] is EnableProxyArpAll
            &&& (r@[2] matches FirewallStep::EnableProxyArpIf { out_if: o } && o@ == out_if@)
            &&& (r@[3] matches FirewallStep::AddHostRoute { source: s, host_ifindex: h } && s
                == ip && h == host_ifindex)
            &&& (r@[4] matches FirewallStep::ForwardAccept { container: c, tag: t } && c
                == container && t@ == tag@)
        },
{
    let mut r: Vec<FirewallStep> = Vec::new();
    match source_ip {
        None => {
            r.push(FirewallStep::Masquerade { out_if: copy_bytes(out_if), tag: copy_bytes(tag) });
            r.push(FirewallStep::ForwardAccept { container, tag: copy_bytes(tag) });
        },
        Some(ip) => {
            r.push(
                FirewallStep::SourceNat { container, source: ip, tag: copy_bytes(tag) },
            );
            r.push(FirewallStep::EnableProxyArpAll);
            r.push(FirewallStep::EnableProxyArpIf { out_if: copy_bytes(out_if) });
            r.push(FirewallStep::AddHostRoute { source: ip, host_ifindex });
            r.push(FirewallStep::ForwardAccept { container, tag: copy_bytes(tag) });
        },
    }
    r
}

/// The comment the firewall tool prints for a rule carrying `tag`:
/// `/* tag */`.
pub open spec fn comment_pattern(tag: Seq<u8>) -> Seq<u8> {
    seq![47u8, 42u8, 32u8] + tag + seq![32u8, 42u8, 47u8]
}

/// True when a listing line shows a rule carrying `tag`.
pub open spec fn line_matches(line: Seq<u8>, tag: Seq<u8>) -> bool {
    contains_seq(line, comment_pattern(tag))
}

/// The index of the first newline of `s`, or its length when there is
/// none.
pub open spec fn line_end(s: Seq<u8>) -> int
    decreases s.len(),
{
    if s.len() == 0 {
        0
    } else if s[0] == 10 {
        0
    } else {
        1 + line_end(s.drop_first())
    }
}

/// A line with a trailing carriage return loses it.
pub open spec fn strip_cr(l: Seq<u8>) -> Seq<u8> {
    if l.len() > 0 && l.last() == 13 {
        l.drop_last()
    } else {
        l
    }
}

proof fn lemma_line_end_bounds(s: Seq<u8>)
    ensures
        0 <= line_end(s) <= s.len(),
    decreases s.len(),
{
    if s.len() > 0 && s[0] != 10 {
        lemma_line_end_bounds(s.drop_first());
    }
}

/// The lines of a listing, as the line reader of the cleanup sees
/// them: split at newlines, one trailing carriage return stripped from
/// each line, and no empty line after a final newline.
pub open spec fn split_lines(s: Seq<u8>) -> Seq<Seq<u8>>
    decreases s.len(),
    via split_lines_decreases
{
    if s.len() == 0 {
        Seq::empty()
    } else {
        let e = line_end(s);
        if e == s.len() {
            seq![strip_cr(s)]
        } else {
            seq![strip_cr(s.take(e))] + split_lines(s.skip(e + 1))
        }
    }
}

#[via_fn]
proof fn split_lines_decreases(s: Seq<u8>) {
    lemma_line_end_bounds(s);
}

/// The index of the first line carrying `tag`, or -1 when none does.
pub open spec fn first_match_line(ls: Seq<Seq<u8>>, tag: Seq<u8>) -> int
    decreases ls.len(),
{
    if ls.len() == 0 {
        -1
    } else if line_matches(ls[0], tag) {
        0
    } else {
        let r = first_match_line(ls.drop_first(), tag);
        if r < 0 {
            -1
        } else {
            r + 1
        }
    }
}

/// When the first `i` lines carry no tag, the first match is decided
/// by what stands at `i`.
proof fn lemma_first_match_prefix(ls: Seq<Seq<u8>>, tag: Seq<u8>, i: int)
    requires
        0 <= i <= ls.len(),
        forall|j: int| 0 <= j < i ==> !line_matches(#[trigger] ls[j], tag),
    ensures
        i == ls.len() ==> first_match_line(ls, tag) == -1,
        i < ls.len() && line_matches(ls[i], tag) ==> first_match_line(ls, tag) == i,
    decreases ls.len(),
{
    if ls.len() > 0 {
        if line_matches(ls[0], tag) {
        } else {
            assert(forall|j: int|
                0 <= j < i - 1 ==> !line_matches(#[trigger] ls.drop_first()[j], tag)) by {
                assert(forall|j: int|
                    0 <= j < i - 1 ==> ls.drop_first()[j] == ls[j + 1]);
            }
            if i == 0 {
                if 0 < ls.len() && line_matches(ls[0], tag) {
                }
            } else {
                lemma_first_match_prefix(ls.drop_first(), tag, i - 1);
            }
        }
    }
}

/// The line's leading whitespace removed.
pub open spec fn drop_ws(l: Seq<u8>) -> Seq<u8>
    decreases l.len(),
{
    if l.len() == 0 {
        l
    } else if is_ws(l[0]) {
        drop_ws(l.drop_first())
    } else {
        l
    }
}

/// The line's bytes up to its first whitespace.
pub open spec fn take_until_ws(l: Seq<u8>) -> Seq<u8>
    decreases l.len(),
{
    if l.len() == 0 {
        l
    } else if is_ws(l[0]) {
        Seq::empty()
    } else {
        seq![l[0]] + take_until_ws(l.drop_first())
    }
}

/// The line's first whitespace-delimited token (empty when the line is
/// all whitespace).
pub open spec fn first_token(l: Seq<u8>) -> Seq<u8> {
    take_until_ws(drop_ws(l))
}

/// When the first `m` bytes are whitespace and the byte at `m` (if
/// any) is not, dropping the leading whitespace leaves the suffix from
/// `m`.
proof fn lemma_drop_ws_at(l: Seq<u8>, m: int)
    requires
        0 <= m <= l.len(),
        forall|k: int| 0 <= k < m ==> is_ws(#[trigger] l[k]),
        m < l.len() ==> !is_ws(l[m]),
    ensures
        drop_ws(l) == l.skip(m),
    decreases m,
{
    if m == 0 {
        assert(l.skip(0) =~= l);
    } else {
        assert(is_ws(l[0]));
        assert(forall|k: int| 0 <= k < m - 1 ==> is_ws(#[trigger] l.drop_first()[k])) by {
            assert(forall|k: int| 0 <= k < m - 1 ==> l.drop_first()[k] == l[k + 1]);
        }
        lemma_drop_ws_at(l.drop_first(), m - 1);
        assert(l.drop_first().skip(m - 1) =~= l.skip(m));
    }
}

/// When the first `m` bytes are not whitespace and the byte at `m` (if
/// any) is, the first token is exactly those `m` bytes.
proof fn lemma_take_until_ws_at(l: Seq<u8>, m: int)
    requires
        0 <= m <= l.len(),
        forall|k: int| 0 <= k < m ==> !is_ws(#[trigger] l[k]),
        m < l.len() ==> is_ws(l[m]),
    ensures
        take_until_ws(l) == l.take(m),
    decreases m,
{
    if m == 0 {
        assert(l.take(0) =~= Seq::<u8>::empty());
    } else {
        assert(!is_ws(l[0]));
        assert(forall|k: int| 0 <= k < m - 1 ==> !is_ws(#[trigger] l.drop_first()[k])) by {
            assert(forall|k: int| 0 <= k < m - 1 ==> l.drop_first()[k] == l[k + 1]);
        }
        lemma_take_until_ws_at(l.drop_first(), m - 1);
        assert(seq![l[0]] + l.drop_first().take(m - 1) =~= l.take(m));
    }
}

proof fn lemma_line_end_at(s: Seq<u8>, m: int)
    requires
        0 <= m <= s.len(),
        forall|k: int| 0 <= k < m ==> #[trigger] s[k] != 10,
        m < s.len() ==> s[m] == 10,
    ensures
        line_end(s) == m,
    decreases m,
{
    if m == 0 {
    } else {
        assert(s[0] != 10);
        assert(forall|k: int| 0 <= k < m - 1 ==> #[trigger] s.drop_first()[k] != 10) by {
            assert(forall|k: int| 0 <= k < m - 1 ==> s.drop_first()[k] == s[k + 1]);
        }
        lemma_line_end_at(s.drop_first(), m - 1);
    }
}

/// True when the byte is one the token splitter treats as whitespace.
fn is_ws_byte(b: u8) -> (r: bool)
    ensures
        r == is_ws(b),
{
    b == 32 || b == 9 || b == 10 || b == 12 || b == 13
}

/// Reads a listing line's rule number: its first whitespace-delimited
/// token as a decimal number.
fn parse_rule_number(line: &Vec<u8>) -> (r: Option<u16>)
    ensures
        ({
            let tok = first_token(line@);
            match r {
                Some(v) => tok.len() > 0 && all_digits(tok) && dec_value(tok) == v as nat,
                None => tok.len() == 0 || !all_digits(tok) || dec_value(tok) > u16::MAX as nat,
            }
        }),
{
    let n = line.len();
    let mut s0: usize = 0;
    while s0 < n && is_ws_byte(line[s0])
        invariant
            s0 <= n,
            n == line@.len(),
            forall|k: int| 0 <= k < s0 ==> is_ws(#[trigger] line@[k]),
        decreases n - s0,
    {
        s0 = s0 + 1;
    }
    proof {
        lemma_drop_ws_at(line@, s0 as int);
    }
    let mut e0: usize = s0;
    while e0 < n && !is_ws_byte(line[e0])
        invariant
            s0 <= e0 <= n,
            n == line@.len(),
            forall|k: int| s0 <= k < e0 ==> !is_ws(#[trigger] line@[k]),
        decreases n - e0,
    {
        e0 = e0 + 1;
    }
    proof {
        let suf = line@.skip(s0 as int);
        assert(forall|k: int| 0 <= k < e0 - s0 ==> !is_ws(#[trigger] suf[k])) by {
            assert(forall|k: int| 0 <= k < e0 - s0 ==> suf[k] == line@[k + s0]);
        }
        assert(e0 < n ==> is_ws(suf[e0 - s0]));
        lemma_take_until_ws_at(suf, e0 - s0);
        assert(first_token(line@) == suf.take(e0 - s0));
        assert(suf.take(e0 - s0) =~= line@.subrange(s0 as int, e0 as int));
    }
    let mut tok: Vec<u8> = Vec::new();
    let mut q: usize = s0;
    while q < e0
        invariant
            s0 <= q <= e0 <= n,
            n == line@.len(),
            tok@ == line@.subrange(s0 as int, q as int),
        decreases e0 - q,
    {
        tok.push(line[q]);
        proof {
            assert(line@.subrange(s0 as int, q + 1) =~= line@.subrange(s0 as int, q as int).push(
                line@[q as int],
            ));
        }
        q = q + 1;
    }
    parse_u16(tok.as_slice())
}

/// Decides the cleanup action for one rule chain from the firewall
/// tool's listing: delete the rule whose line carries this run's tag
/// (`Ok(Some(n))`, the line number to delete), warn and do nothing when
/// no line carries it (`Ok(None)` — the rule may have been removed by
/// an external actor, and cleanup never aborts), or report the tool's
/// output as unparseable when the matching line does not begin with a
/// usable rule number.
pub fn plan_cleanup(listing: &[u8], tag: &[u8]) -> (r: Result<Option<u16>, Error>)
    ensures
        ({
            let ls = split_lines(listing@);
            let m = first_match_line(ls, tag@);
            &&& (m == -1 ==> r == Ok::<Option<u16>, Error>(None))
            &&& (m >= 0 ==> ({
                let tok = first_token(ls[m]);
                if tok.len() > 0 && all_digits(tok) && dec_value(tok) <= u16::MAX as nat {
                    r == Ok::<Option<u16>, Error>(Some((dec_value(tok) as u16)))
                } else {
                    r == Err::<Option<u16>, Error>(Error::FirewallTool)
                }
            }))
        }),
{
    let n = listing.len();
    let mut pat: Vec<u8> = Vec::new();
    pat.push(47);
    pat.push(42);
    pat.push(32);
    push_bytes(&mut pat, tag);
    pat.push(32);
    pat.push(42);
    pat.push(47);
    proof {
        assert(pat@ =~= comment_pattern(tag@));
    }
    let ghost ls = split_lines(listing@);
    let mut pos: usize = 0;
    let ghost mut count: int = 0;
    proof {
        assert(listing@.skip(0) =~= listing@);
        assert(ls.skip(0) =~= ls);
    }
    while pos < n
        invariant
            pos <= n,
            n == listing@.len(),
            pat@ == comment_pattern(tag@),
            ls == split_lines(listing@),
            0 <= count <= ls.len(),
            split_lines(listing@.skip(pos as int)) == ls.skip(count),
            forall|j: int| 0 <= j < count ==> !line_matches(#[trigger] ls[j], tag@),
        decreases n - pos,
    {
        let ghost t = listing@.skip(pos as int);
        let mut j: usize = pos;
        while j < n && listing[j] != 10
            invariant
                pos <= j <= n,
                n == listing@.len(),
                forall|k: int| pos <= k < j ==> #[trigger] listing@[k] != 10,
            decreases n - j,
        {
            j = j + 1;
        }
        proof {
            assert(forall|k: int| 0 <= k < j - pos ==> #[trigger] t[k] != 10) by {
                assert(forall|k: int| 0 <= k < j - pos ==> t[k] == listing@[k + pos]);
            }
            assert(j - pos < t.len() ==> t[j - pos] == 10);
            lemma_line_end_at(t, j - pos);
        }
        let mut end: usize = j;
        if end > pos && listing[end - 1] == 13 {
            end = end - 1;
        }
        let mut line: Vec<u8> = Vec::new();
        let mut q: usize = pos;
        while q < end
            invariant
                pos <= q <= end <= n,
                n == listing@.len(),
                line@ == listing@.subrange(pos as int, q as int),
            decreases end - q,
        {
            line.push(listing[q]);
            proof {
                assert(listing@.subrange(pos as int, q + 1) =~= listing@.subrange(
                    pos as int,
                    q as int,
                ).push(listing@[q as int]));
            }
            q = q + 1;
        }
        proof {
            assert(t.take(j - pos) =~= listing@.subrange(pos as int, j as int));
            if j > pos && listing@[j - 1] == 13 {
                assert(line@ =~= strip_cr(t.take(j - pos))) by {
                    assert(t.take(j - pos).last() == 13);
                    assert(t.take(j - pos).drop_last() =~= listing@.subrange(
                        pos as int,
                        j - 1,
                    ));
                }
            } else {
                assert(line@ =~= strip_cr(t.take(j - pos)));
            }
            // this line is the next entry of the split
            assert(t.len() > 0);
            if j < n {
                assert(line_end(t) < t.len());
                assert(split_lines(t) == seq![strip_cr(t.take(j - pos))] + split_lines(
                    t.skip(j - pos + 1),
                ));
            } else {
                assert(line_end(t) == t.len());
                assert(t.take(j - pos) =~= t);
                assert(split_lines(t) == seq![strip_cr(t)]);
            }
            assert(ls.skip(count)[0] == ls[count]);
            assert(ls[count] == line@);
        }
        if contains_bytes(line.as_slice(), pat.as_slice()) {
            proof {
                lemma_first_match_prefix(ls, tag@, count);
                assert(first_match_line(ls, tag@) == count);
            }
            match parse_rule_number(&line) {
                Some(v) => {
                    return Ok(Some(v));
                },
                None => {
                    return Err(Error::FirewallTool);
                },
            }
        }
        proof {
            assert(!line_matches(ls[count], tag@));
            if j < n {
                assert(split_lines(t).drop_first() == split_lines(t.skip(j - pos + 1)));
                assert(ls.skip(count).drop_first() =~= ls.skip(count + 1));
                assert(t.skip(j - pos + 1) =~= listing@.skip(j + 1));
            } else {
                assert(ls.skip(count).drop_first() =~= ls.skip(count + 1));
                assert(ls.skip(count + 1) =~= Seq::<Seq<u8>>::empty());
                assert(listing@.skip(n as int) =~= Seq::<u8>::empty());
            }
            count = count + 1;
        }
        if j < n {
            pos = j + 1;
        } else {
            pos = n;
        }
    }
    proof {
        assert(listing@.skip(n as int) =~= Seq::<u8>::empty());
        assert(ls.skip(count) =~= Seq::<Seq<u8>>::empty());
        assert(count == ls.len());
        lemma_first_match_prefix(ls, tag@, count);
    }
    Ok(None)
}

/// True for the bytes a tag may hold: letters and digits, as the tags
/// this tool builds (`dlsh` plus a decimal process id) do.
pub open spec fn is_tag_byte(b: u8) -> bool {
    (48 <= b <= 57) || (65 <= b <= 90) || (97 <= b <= 122)
}

/// A usable tag: nonempty, letters and digits only.
pub open spec fn wf_tag(tag: Seq<u8>) -> bool {
    tag.len() > 0 && (forall|i: int| 0 <= i < tag.len() ==> is_tag_byte(#[trigger] tag[i]))
}

/// True when the line carries exactly one comment and it is `tag`'s:
/// the comment pattern stands at `p`, and `p` is the only offset where
/// a comment opener `/*` stands.
pub open spec fn sole_comment_at(line: Seq<u8>, tag: Seq<u8>, p: int) -> bool {
    match_at(line, comment_pattern(tag), p) && (forall|q: int|
        match_at(line, seq![47u8, 42u8], q) ==> q == p)
}

/// Tag isolation: cleanup for one run never deletes a rule tagged for
/// another, even when both stand in the same chain. A listing line
/// whose one comment is `/* tag_b */` matches its own tag and no
/// other, so `plan_cleanup` for a different tag can never name its
/// line number.
pub proof fn lemma_tag_isolation(line: Seq<u8>, tag_a: Seq<u8>, tag_b: Seq<u8>, p: int)
    requires
        wf_tag(tag_a),
        wf_tag(tag_b),
        tag_a != tag_b,
        sole_comment_at(line, tag_b, p),
    ensures
        line_matches(line, tag_b),
        !line_matches(line, tag_a),
{
    let pa = comment_pattern(tag_a);
    let pb = comment_pattern(tag_b);
    let la = tag_a.len() as int;
    let lb = tag_b.len() as int;
    if line_matches(line, tag_a) {
        let q = choose|q: int| match_at(line, pa, q);
        assert forall|i: int| 0 <= i < pa.len() implies line[q + i] == pa[i] by {
            assert(line.subrange(q, q + pa.len() as int)[i] == pa[i]);
        }
        assert(match_at(line, seq![47u8, 42u8], q)) by {
            assert(line[q] == pa[0] && line[q + 1] == pa[1]);
            assert(pa[0] == 47 && pa[1] == 42);
            assert(line.subrange(q, q + 2) =~= seq![47u8, 42u8]);
        }
        assert(q == p);
        assert forall|i: int| 0 <= i < pb.len() implies line[p + i] == pb[i] by {
            assert(line.subrange(p, p + pb.len() as int)[i] == pb[i]);
        }
        if la == lb {
            assert(tag_a =~= tag_b) by {
                assert forall|i: int| 0 <= i < la implies tag_a[i] == tag_b[i] by {
                    assert(pa[3 + i] == tag_a[i]);
                    assert(pb[3 + i] == tag_b[i]);
                    assert(line[p + 3 + i] == pa[3 + i]);
                    assert(line[p + 3 + i] == pb[3 + i]);
                }
            }
        } else if la < lb {
            assert(pa[3 + la] == 32);
            assert(pb[3 + la] == tag_b[la]);
            assert(is_tag_byte(tag_b[la]));
            assert(line[p + 3 + la] == pa[3 + la]);
            assert(line[p + 3 + la] == pb[3 + la]);
        } else {
            assert(pb[3 + lb] == 32);
            assert(pa[3 + lb] == tag_a[lb]);
            assert(is_tag_byte(tag_a[lb]));
            assert(line[p + 3 + lb] == pa[3 + lb]);
            assert(line[p + 3 + lb] == pb[3 + lb]);
        }
    }
}

/// Cleanup idempotence: when exactly one line of a chain's listing
/// carries the tag and exactly that line is removed, no remaining line
/// carries it — so a second cleanup for the same tag decides
/// `Ok(None)`, the warning case, never an error.
pub proof fn lemma_cleanup_idempotent(ls: Seq<Seq<u8>>, i: int, tag: Seq<u8>)
    requires
        0 <= i < ls.len(),
        forall|j: int| 0 <= j < ls.len() && j != i ==> !line_matches(#[trigger] ls[j], tag),
    ensures
        forall|j: int|
            0 <= j < ls.remove(i).len() ==> !line_matches(#[trigger] ls.remove(i)[j], tag),
        first_match_line(ls.remove(i), tag) == -1,
{
    assert forall|j: int|
        0 <= j < ls.remove(i).len() implies !line_matches(#[trigger] ls.remove(i)[j], tag) by {
        if j < i {
            assert(ls.remove(i)[j] == ls[j]);
        } else {
            assert(ls.remove(i)[j] == ls[j + 1]);
        }
    }
    lemma_first_match_prefix(ls.remove(i), tag, ls.remove(i).len() as int);
}

} // verus!
