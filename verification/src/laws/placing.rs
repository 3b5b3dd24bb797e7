//! What holds of where a deployment goes: its name and host names, the databases that it
//! reaches, and the part of their network that it stands in.

use crate::deploy::names::{
    first_bad, grpc_domain, host_fault, host_text, label_fault, labels_fault, name_fault,
    point_place, HostError, NameError,
};
use crate::deploy::placement::{hint_of, hints_of, open_parts, zone_slot, SubnetView};
use crate::laws::texts::law_cut_texts;
use crate::phrase::{end_trimmed, is_the, pieces};
use crate::repl::grid::byte_len;
use crate::text::{
    lemma_text_less_asymmetric, lemma_text_less_total, lemma_text_less_transitive, lowercase,
    occurs_in, text_less, trim_spec,
};
use vstd::prelude::*;

verus! {

/// Whether a name for a deployment holds nothing but small letters, digits and hyphens.
pub open spec fn is_plain(n: Seq<char>) -> bool {
    forall|i: int|
        0 <= i < n.len() ==> ('a' <= #[trigger] n[i] && n[i] <= 'z' || '0' <= n[i] && n[i] <= '9'
            || n[i] == '-')
}

proof fn lemma_first_bad(s: Seq<char>, from: int)
    requires
        0 <= from <= s.len(),
    ensures
        first_bad(s, from) is None <==> is_plain(s.skip(from)),
        first_bad(s, from) matches Some(c) ==> exists|i: int|
            from <= i < s.len() && #[trigger] s[i] == c && is_plain(s.subrange(from, i)) && !('a'
                <= c && c <= 'z' || '0' <= c && c <= '9' || c == '-'),
    decreases s.len() - from,
{
    let rest = s.skip(from);
    if from < s.len() {
        assert(rest[0] == s[from]);
        let good = 'a' <= s[from] && s[from] <= 'z' || '0' <= s[from] && s[from] <= '9' || s[from]
            == '-';
        if good {
            lemma_first_bad(s, from + 1);
            let next = s.skip(from + 1);
            assert forall|i: int| 0 <= i < next.len() implies next[i] == rest[i + 1] by {}
            if is_plain(next) {
                assert forall|i: int| 0 <= i < rest.len() implies ('a' <= #[trigger] rest[i]
                    && rest[i] <= 'z' || '0' <= rest[i] && rest[i] <= '9' || rest[i] == '-') by {
                    if i > 0 {
                        assert(rest[i] == next[i - 1]);
                    }
                }
            }
            if is_plain(rest) {
                assert forall|i: int| 0 <= i < next.len() implies ('a' <= #[trigger] next[i]
                    && next[i] <= 'z' || '0' <= next[i] && next[i] <= '9' || next[i] == '-') by {
                    assert(next[i] == rest[i + 1]);
                }
            }
            if let Some(c) = first_bad(s, from + 1) {
                let i = choose|i: int|
                    from + 1 <= i < s.len() && #[trigger] s[i] == c && is_plain(
                        s.subrange(from + 1, i),
                    );
                let near = s.subrange(from, i);
                let behind = s.subrange(from + 1, i);
                assert forall|k: int| 0 <= k < near.len() implies ('a' <= #[trigger] near[k]
                    && near[k] <= 'z' || '0' <= near[k] && near[k] <= '9' || near[k] == '-') by {
                    if k > 0 {
                        assert(near[k] == behind[k - 1]);
                    }
                }
                assert(s[i] == c);
            }
        } else {
            assert(s[from] == s[from]);
            assert(s.subrange(from, from).len() == 0);
        }
    }
}

/// A deployment is named by three to thirty-two bytes of small letters, digits and hyphens,
/// of which the first is a letter and the last no hyphen, with white space around that does
/// not count. What is wrong with another name is the first of these that fails: how long it
/// is, what it begins with, what it ends with, and the first character that it may not hold.
pub proof fn law_names(name: Seq<char>)
    ensures
        ({
            let n = trim_spec(name);
            let good = 3 <= byte_len(n) <= 32;
            let begun = n.len() > 0 && 'a' <= n[0] && n[0] <= 'z';
            let ended = n.len() > 0 && n.last() != '-';
            match name_fault(name) {
                None => good && begun && ended && is_plain(n),
                Some(NameError::Length(_)) => !good,
                Some(NameError::Start(c)) => good && !begun && c == n[0],
                Some(NameError::End) => good && begun && !ended,
                Some(NameError::Character(c)) => good && begun && ended && exists|i: int|
                    0 <= i < n.len() && #[trigger] n[i] == c && is_plain(n.take(i)) && !('a' <= c
                        && c <= 'z' || '0' <= c && c <= '9' || c == '-'),
            }
        }),
{
    let n = trim_spec(name);
    lemma_first_bad(n, 0);
    assert(n.skip(0) =~= n);
    if n.len() == 0 {
        assert(n =~= Seq::empty());
        assert(byte_len(n) == 0);
    }
    if let Some(c) = first_bad(n, 0) {
        let i = choose|i: int|
            0 <= i < n.len() && #[trigger] n[i] == c && is_plain(n.subrange(0, i));
        assert(n.subrange(0, i) =~= n.take(i));
        assert(n[i] == c);
    }
}

/// Whether a text can stand between two points of a host name.
pub open spec fn is_label(l: Seq<char>) -> bool {
    &&& 0 < l.len()
    &&& byte_len(l) <= 63
    &&& l[0] != '-'
    &&& forall|i: int|
        0 <= i < l.len() ==> ('a' <= #[trigger] l[i] && l[i] <= 'z' || 'A' <= l[i] && l[i] <= 'Z'
            || '0' <= l[i] && l[i] <= '9' || l[i] == '-')
}

proof fn lemma_label(l: Seq<char>)
    ensures
        label_fault(l) is None <==> is_label(l),
{
    if is_label(l) {
        assert(l[0] != '-');
    }
    if label_fault(l) is None {
        assert forall|i: int| 0 <= i < l.len() implies ('a' <= #[trigger] l[i] && l[i] <= 'z'
            || 'A' <= l[i] && l[i] <= 'Z' || '0' <= l[i] && l[i] <= '9' || l[i] == '-') by {
            assert(crate::deploy::names::label_char(l[i]));
        }
    }
}

proof fn lemma_labels(labels: Seq<Seq<char>>, from: int)
    requires
        0 <= from <= labels.len(),
    ensures
        labels_fault(labels, from) is None <==> forall|i: int|
            from <= i < labels.len() ==> is_label(#[trigger] labels[i]),
        labels_fault(labels, from) matches Some(e) ==> e is Label || e is LabelStart
            || e is LabelCharacter,
    decreases labels.len() - from,
{
    if from < labels.len() {
        lemma_label(labels[from]);
        lemma_labels(labels, from + 1);
    }
}

/// A host name has four to two hundred and fifty-three bytes and a point, and what stands
/// between its points are labels: letters, digits and hyphens, up to sixty-three bytes, the
/// first no hyphen. It holds no slash and no colon. White space around it and points that
/// end it do not count.
pub proof fn law_host_names(domain: Seq<char>)
    ensures
        ({
            let d = host_text(domain);
            let long = 4 <= byte_len(d) <= 253;
            let plain = !d.contains('/') && !d.contains(':');
            &&& host_fault(domain) is None <==> long && plain && d.contains('.') && forall|i: int|
                0 <= i < pieces(d, '.').len() ==> is_label(#[trigger] pieces(d, '.')[i])
            &&& host_fault(domain) == Some(HostError::Length) <==> !long
            &&& host_fault(domain) == Some(HostError::Address) <==> long && !plain
            &&& host_fault(domain) == Some(HostError::NoPoint) <==> long && plain && !d.contains(
                '.',
            )
        }),
{
    let d = host_text(domain);
    lemma_labels(pieces(d, '.'), 0);
    reveal_strlit("://");
    if occurs_in(d, "://"@) {
        let at = choose|at: int| #[trigger] crate::text::occurs_at(d, "://"@, at);
        assert("://"@[0] == ':');
        assert(d.subrange(at, at + 3)[0] == d[at]);
        assert(d.contains(':'));
    }
}

proof fn lemma_point_place(s: Seq<char>, from: int, at: int)
    requires
        0 <= from <= at < s.len(),
        s[at] == '.',
        forall|i: int| from <= i < at ==> #[trigger] s[i] != '.',
    ensures
        point_place(s, from) == Some(at),
    decreases at - from,
{
    if from < at {
        assert(s[from] != '.');
        lemma_point_place(s, from + 1, at);
    }
}

proof fn lemma_no_point(s: Seq<char>, from: int)
    requires
        0 <= from <= s.len(),
        !s.contains('.'),
    ensures
        point_place(s, from) is None,
    decreases s.len() - from,
{
    if from < s.len() {
        assert(s.contains(s[from]));
        lemma_no_point(s, from + 1);
    }
}

/// The host name that is offered for gRPC is that for REST with `-grpc` behind its first
/// label.
pub proof fn law_grpc_host(domain: Seq<char>, first: Seq<char>, rest: Seq<char>)
    requires
        !first.contains('.'),
    ensures
        host_text(domain) == first + "."@ + rest ==> grpc_domain(domain) == first + "-grpc"@
            + "."@ + rest,
        host_text(domain) == first ==> grpc_domain(domain) == first + "-grpc"@,
{
    reveal_strlit(".");
    reveal_strlit("-grpc");
    reveal_strlit("-grpc.");
    let h = host_text(domain);
    if h == first + "."@ + rest {
        let at = first.len() as int;
        assert(h[at] == '.');
        assert forall|i: int| 0 <= i < at implies #[trigger] h[i] != '.' by {
            assert(first.contains(first[i]));
        }
        lemma_point_place(h, 0, at);
        assert("-grpc."@ =~= "-grpc"@ + "."@);
        assert(h.take(at) =~= first);
        assert(h.skip(at + 1) =~= rest);
        assert(grpc_domain(domain) =~= first + "-grpc"@ + "."@ + rest);
    }
    if h == first {
        lemma_no_point(h, 0);
    }
}

proof fn lemma_points(a: Seq<char>, b: Seq<char>)
    ensures
        pieces(a.push('.') + b, '.') == pieces(a, '.') + pieces(b, '.'),
        !a.contains('.') ==> pieces(a, '.') == seq![a],
{
    let cut = is_the('.');
    assert(cut('.'));
    if !a.contains('.') {
        assert forall|i: int| 0 <= i < a.len() implies !cut(#[trigger] a[i]) by {
            assert(a.contains(a[i]));
        }
    }
    law_cut_texts(a, '.', b, cut);
}

/// A host name of the kind `name.mark.region.rds.amazonaws.com`, however its letters are
/// written and whatever points end it, hints at the database of that name in that region;
/// and one that does not end so, at none.
pub proof fn law_hint(host: Seq<char>, name: Seq<char>, mark: Seq<char>, region: Seq<char>)
    requires
        !name.contains('.'),
        !mark.contains('.'),
        !region.contains('.'),
    ensures
        ({
            let h = lowercase(end_trimmed(trim_spec(host), '.'));
            &&& h == name + "."@ + mark + "."@ + region + ".rds.amazonaws.com"@ ==> hint_of(host)
                == Some((name, region))
            &&& !".rds.amazonaws.com"@.is_suffix_of(h) ==> hint_of(host) is None
        }),
{
    let h = lowercase(end_trimmed(trim_spec(host), '.'));
    let end = ".rds.amazonaws.com"@;
    reveal_strlit(".");
    reveal_strlit(".rds.amazonaws.com");
    if h == name + "."@ + mark + "."@ + region + end {
        let rds = seq!['r', 'd', 's'];
        let aws = seq!['a', 'm', 'a', 'z', 'o', 'n', 'a', 'w', 's'];
        let com = seq!['c', 'o', 'm'];
        let tail5 = com;
        let tail4 = aws.push('.') + tail5;
        let tail3 = rds.push('.') + tail4;
        let tail2 = region.push('.') + tail3;
        let tail1 = mark.push('.') + tail2;
        assert(end =~= seq!['.'] + tail3);
        assert(h =~= name.push('.') + tail1);
        lemma_points(name, tail1);
        lemma_points(mark, tail2);
        lemma_points(region, tail3);
        lemma_points(rds, tail4);
        lemma_points(aws, tail5);
        lemma_points(com, com);
        let parts = pieces(h, '.');
        assert(parts =~= seq![name, mark, region, rds, aws, com]);
        assert(h.skip(h.len() - end.len()) =~= end);
        assert(end.is_suffix_of(h));
    }
}

/// What the hosts hint at is each database that one of them names, in the order in which
/// they first do.
pub proof fn law_hints(hosts: Seq<Seq<char>>, host: Seq<char>)
    ensures
        hints_of(Seq::empty()).len() == 0,
        match hint_of(host) {
            Some(h) => hints_of(hosts.push(host)) == if hints_of(hosts).contains(h) {
                hints_of(hosts)
            } else {
                hints_of(hosts).push(h)
            },
            None => hints_of(hosts.push(host)) == hints_of(hosts),
        },
        forall|h: (Seq<char>, Seq<char>)| #[trigger]
            hints_of(hosts).contains(h) <==> exists|i: int|
                0 <= i < hosts.len() && hint_of(#[trigger] hosts[i]) == Some(h),
    decreases hosts.len(),
{
    assert(hosts.push(host).drop_last() =~= hosts);
    if hosts.len() > 0 {
        let front = hosts.drop_last();
        law_hints(front, hosts.last());
        assert(front.push(hosts.last()) =~= hosts);
        assert forall|h: (Seq<char>, Seq<char>)| #[trigger]
            hints_of(hosts).contains(h) <==> exists|i: int|
                0 <= i < hosts.len() && hint_of(#[trigger] hosts[i]) == Some(h) by {
            let old = hints_of(front);
            if hints_of(hosts).contains(h) {
                if old.contains(h) {
                    let i = choose|i: int|
                        0 <= i < front.len() && hint_of(#[trigger] front[i]) == Some(h);
                    assert(hosts[i] == front[i]);
                } else {
                    let k = choose|k: int|
                        0 <= k < hints_of(hosts).len() && hints_of(hosts)[k] == h;
                    if k < old.len() {
                        assert(old[k] == h);
                    }
                    assert(hint_of(hosts[hosts.len() - 1]) == Some(h));
                }
            }
            if exists|i: int| 0 <= i < hosts.len() && hint_of(#[trigger] hosts[i]) == Some(h) {
                let i = choose|i: int| 0 <= i < hosts.len() && hint_of(#[trigger] hosts[i]) == Some(h);
                if i < front.len() {
                    assert(front[i] == hosts[i]);
                    assert(old.contains(h));
                    let k = choose|k: int| 0 <= k < old.len() && old[k] == h;
                    assert(hints_of(hosts)[k] == h);
                } else if !old.contains(h) {
                    assert(hints_of(hosts)[old.len() as int] == h);
                }
            }
        }
    }
}

proof fn lemma_slot(s: Seq<SubnetView>, zone: Seq<char>)
    requires
        forall|i: int, j: int|
            0 <= i < j < s.len() ==> !text_less((#[trigger] s[j]).zone, (#[trigger] s[i]).zone),
    ensures
        0 <= zone_slot(s, zone) <= s.len(),
        forall|i: int| 0 <= i < zone_slot(s, zone) ==> !text_less(zone, (#[trigger] s[i]).zone),
        forall|i: int| zone_slot(s, zone) <= i < s.len() ==> text_less(zone, (#[trigger] s[i]).zone),
    decreases s.len(),
{
    if s.len() > 0 {
        let front = s.drop_last();
        if text_less(zone, s.last().zone) {
            assert forall|i: int, j: int| 0 <= i < j < front.len() implies !text_less(
                (#[trigger] front[j]).zone,
                (#[trigger] front[i]).zone,
            ) by {
                assert(front[i] == s[i] && front[j] == s[j]);
            }
            lemma_slot(front, zone);
            assert forall|i: int| zone_slot(s, zone) <= i < s.len() implies text_less(
                zone,
                (#[trigger] s[i]).zone,
            ) by {
                if i < front.len() {
                    assert(front[i] == s[i]);
                }
            }
            assert forall|i: int| 0 <= i < zone_slot(s, zone) implies !text_less(
                zone,
                (#[trigger] s[i]).zone,
            ) by {
                assert(front[i] == s[i]);
            }
        } else {
            assert forall|i: int| 0 <= i < s.len() implies !text_less(
                zone,
                (#[trigger] s[i]).zone,
            ) by {
                let last = s[s.len() - 1];
                if i < s.len() - 1 && text_less(zone, s[i].zone) {
                    lemma_text_less_total(zone, last.zone);
                    if last.zone == zone {
                        assert(text_less(last.zone, s[i].zone));
                    } else {
                        lemma_text_less_transitive(last.zone, zone, s[i].zone);
                    }
                }
            }
        }
    }
}

/// The parts of a network that are offered are those that give machines a public address
/// and have a name, each as often as it is listed, in the order of their zones.
pub proof fn law_offered_parts(s: Seq<SubnetView>)
    ensures
        forall|i: int, j: int|
            0 <= i < j < open_parts(s).len() ==> !text_less(
                (#[trigger] open_parts(s)[j]).zone,
                (#[trigger] open_parts(s)[i]).zone,
            ),
        open_parts(s).to_multiset() == s.filter(
            |p: SubnetView| p.public && p.id.len() > 0,
        ).to_multiset(),
    decreases s.len(),
{
    broadcast use vstd::seq_lib::group_to_multiset_ensures;

    let fits = |p: SubnetView| p.public && p.id.len() > 0;
    reveal(Seq::filter);
    if s.len() == 0 {
        assert(s.filter(fits) =~= open_parts(s));
    } else {
        let front = s.drop_last();
        let last = s.last();
        law_offered_parts(front);
        let before = open_parts(front);
        if fits(last) {
            let at = zone_slot(before, last.zone);
            lemma_slot(before, last.zone);
            let after = before.insert(at, last);
            assert(open_parts(s) == after);
            assert forall|i: int, j: int| 0 <= i < j < after.len() implies !text_less(
                (#[trigger] after[j]).zone,
                (#[trigger] after[i]).zone,
            ) by {
                if i == at {
                    assert(after[j] == before[j - 1]);
                    lemma_text_less_asymmetric(last.zone, before[j - 1].zone);
                } else if j == at {
                    assert(after[i] == before[i]);
                } else {
                    assert(after[i] == before[if i < at { i } else { i - 1 }]);
                    assert(after[j] == before[if j < at { j } else { j - 1 }]);
                }
            }
            assert(s.filter(fits) == front.filter(fits).push(last));
            vstd::seq_lib::to_multiset_insert(before, at, last);
        } else {
            assert(s.filter(fits) == front.filter(fits));
        }
    }
}

} // verus!
