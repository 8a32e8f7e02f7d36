//! The configuration document's text form: a line-based YAML subset with
//! a fixed key order, written and read by this module alone. The writer
//! emits the canonical form; the reader accepts it, hydrates missing
//! health-check fields with their defaults, and rejects unknown top-level
//! content.

use vstd::prelude::*;

use crate::config::{
    Config, ConfigError, ConfigV, HealthCheckConfig, HealthCheckConfigV, Route, RouteTarget,
    RouteTargetV, RouteV, Service, ServiceV,
};
use crate::digits::{spec_dec, spec_parse_u64};

verus! {

/// A string vector's deep view, element by element.
pub broadcast proof fn lemma_lines_deep_view(v: Vec<String>)
    ensures
        #[trigger] v.deep_view() == Seq::new(v@.len(), |i: int| v@[i]@),
{
    assert(v.deep_view() =~= Seq::new(v@.len(), |i: int| v@[i]@));
}

// ---------------------------------------------------------------------
// Lines and text
// ---------------------------------------------------------------------

/// Split on `'\n'`; `n` newlines give `n + 1` lines, empty ones included.
pub open spec fn spec_split_nl(s: Seq<char>) -> Seq<Seq<char>>
    decreases s.len(),
{
    if s.len() == 0 {
        seq![Seq::empty()]
    } else if s.last() == '\n' {
        spec_split_nl(s.drop_last()).push(Seq::empty())
    } else {
        let p = spec_split_nl(s.drop_last());
        p.update(p.len() - 1, p.last().push(s.last()))
    }
}

pub proof fn lemma_split_nl_len(s: Seq<char>)
    ensures
        spec_split_nl(s).len() >= 1,
    decreases s.len(),
{
    if s.len() > 0 {
        lemma_split_nl_len(s.drop_last());
    }
}

/// The lines joined by single newlines, with no trailing newline.
pub open spec fn spec_join_nl(ls: Seq<Seq<char>>) -> Seq<char>
    decreases ls.len(),
{
    if ls.len() == 0 {
        Seq::empty()
    } else if ls.len() == 1 {
        ls[0]
    } else {
        spec_join_nl(ls.drop_last()) + seq!['\n'] + ls.last()
    }
}

/// Splitting after appending newline-free text extends the last line.
proof fn lemma_split_append_clean(x: Seq<char>, y: Seq<char>)
    requires
        !y.contains('\n'),
    ensures
        ({
            let p = spec_split_nl(x);
            spec_split_nl(x + y) == p.update(p.len() - 1, p.last() + y)
        }),
    decreases y.len(),
{
    lemma_split_nl_len(x);
    let p = spec_split_nl(x);
    if y.len() == 0 {
        assert(x + y =~= x);
        assert(p.last() + y =~= p.last());
        assert(p.update(p.len() - 1, p.last()) =~= p);
    } else {
        let y0 = y.drop_last();
        assert(!y0.contains('\n')) by {
            if y0.contains('\n') {
                let w = choose|j: int| 0 <= j < y0.len() && y0[j] == '\n';
                assert(y[w] == '\n');
            }
        }
        lemma_split_append_clean(x, y0);
        let q = spec_split_nl(x + y0);
        assert((x + y).drop_last() =~= x + y0);
        assert((x + y).last() == y.last());
        assert(y.contains(y.last()));
        assert(y.last() != '\n');
        assert(spec_split_nl(x + y) == q.update(q.len() - 1, q.last().push(y.last())));
        assert(q == p.update(p.len() - 1, p.last() + y0));
        assert(q.len() == p.len());
        assert(q.last() == p.last() + y0);
        assert(p.last() + y0 + seq![y.last()] =~= p.last() + y);
        assert((p.last() + y0).push(y.last()) =~= p.last() + y);
        assert(q.update(q.len() - 1, q.last().push(y.last())) =~= p.update(
            p.len() - 1,
            p.last() + y,
        ));
    }
}

/// Splitting the join of newline-free lines gives the lines back.
pub proof fn lemma_split_join(ls: Seq<Seq<char>>)
    requires
        ls.len() >= 1,
        forall|i: int| 0 <= i < ls.len() ==> !(#[trigger] ls[i]).contains('\n'),
    ensures
        spec_split_nl(spec_join_nl(ls)) == ls,
    decreases ls.len(),
{
    if ls.len() == 1 {
        assert(Seq::<char>::empty() + ls[0] =~= ls[0]);
        lemma_split_append_clean(Seq::<char>::empty(), ls[0]);
        let p = spec_split_nl(Seq::<char>::empty());
        assert(p =~= seq![Seq::<char>::empty()]);
        assert(p.last() + ls[0] =~= ls[0]);
        assert(p.update(0, ls[0]) =~= ls);
    } else {
        lemma_split_join(ls.drop_last());
        let jpre = spec_join_nl(ls.drop_last());
        let withnl = jpre + seq!['\n'];
        assert(withnl.drop_last() =~= jpre);
        assert(withnl.last() == '\n');
        assert(spec_split_nl(withnl) == spec_split_nl(jpre).push(Seq::<char>::empty()));
        lemma_split_append_clean(withnl, ls.last());
        let p = spec_split_nl(withnl);
        assert(spec_join_nl(ls) =~= withnl + ls.last());
        assert(p.last() =~= Seq::<char>::empty());
        assert(p.last() + ls.last() =~= ls.last());
        assert(p.update(p.len() - 1, ls.last()) =~= ls.drop_last().push(Seq::<char>::empty()).update(
            ls.len() - 1,
            ls.last(),
        ));
        assert(ls.drop_last().push(Seq::<char>::empty()).update(ls.len() - 1, ls.last()) =~= ls);
    }
}

/// Split text into its lines.
pub fn split_lines(s: &str) -> (r: Vec<String>)
    ensures
        r.deep_view() == spec_split_nl(s@),
{
    broadcast use lemma_lines_deep_view;

    let len = s.unicode_len();
    let mut done: Vec<String> = Vec::new();
    let mut start: usize = 0;
    let mut i: usize = 0;
    proof {
        assert(s@.subrange(0, 0) =~= Seq::<char>::empty());
        assert(done.deep_view().push(Seq::<char>::empty()) =~= seq![Seq::<char>::empty()]);
    }
    while i < len
        invariant
            len == s@.len(),
            0 <= start <= i <= len,
            done.deep_view().push(s@.subrange(start as int, i as int)) =~= spec_split_nl(
                s@.subrange(0, i as int),
            ),
        decreases len - i,
    {
        broadcast use lemma_lines_deep_view;

        let ghost prefix = s@.subrange(0, i as int);
        let ghost next = s@.subrange(0, i as int + 1);
        let ghost dv = done.deep_view();
        let ghost cv = s@.subrange(start as int, i as int);
        proof {
            assert(next.drop_last() =~= prefix);
            assert(next.last() == s@[i as int]);
        }
        if s.get_char(i) == '\n' {
            let piece = s.substring_char(start, i).to_owned();
            done.push(piece);
            start = i + 1;
            proof {
                assert(done.deep_view() =~= dv.push(cv));
                assert(s@.subrange(start as int, i as int + 1) =~= Seq::<char>::empty());
                assert(done.deep_view().push(s@.subrange(start as int, i as int + 1))
                    =~= spec_split_nl(next));
            }
        } else {
            proof {
                let p = spec_split_nl(prefix);
                assert(p.len() >= 1) by {
                    lemma_split_nl_len(prefix);
                }
                assert(p == dv.push(cv));
                assert(p.last() == cv);
                assert(s@.subrange(start as int, i as int + 1) =~= cv.push(s@[i as int]));
                assert(p.update(p.len() - 1, cv.push(s@[i as int])) =~= dv.push(cv.push(
                    s@[i as int],
                )));
                assert(done.deep_view().push(s@.subrange(start as int, i as int + 1)) =~= dv.push(
                    cv.push(s@[i as int]),
                ));
            }
        }
        i = i + 1;
    }
    let last = s.substring_char(start, len).to_owned();
    let ghost dv = done.deep_view();
    let ghost cv = last@;
    done.push(last);
    proof {
        assert(done.deep_view() =~= dv.push(cv));
        assert(s@.subrange(0, len as int) =~= s@);
    }
    done
}

/// Join lines with newlines.
pub fn join_lines(lines: &Vec<String>) -> (r: String)
    ensures
        r@ == spec_join_nl(lines.deep_view()),
{
    broadcast use lemma_lines_deep_view;

    let mut acc = String::new();
    let mut k: usize = 0;
    while k < lines.len()
        invariant
            0 <= k <= lines@.len(),
            acc@ == spec_join_nl(lines.deep_view().subrange(0, k as int)),
        decreases lines@.len() - k,
    {
        broadcast use lemma_lines_deep_view;

        let ghost pre = lines.deep_view().subrange(0, k as int);
        let ghost post = lines.deep_view().subrange(0, k as int + 1);
        proof {
            assert(post.drop_last() =~= pre);
            assert(post.last() == lines.deep_view()[k as int]);
        }
        if k == 0 {
            acc.append(lines[k].as_str());
            proof {
                assert(Seq::<char>::empty() + lines.deep_view()[0] =~= lines.deep_view()[0]);
                assert(post =~= seq![lines.deep_view()[0]]);
            }
        } else {
            acc.append("\n");
            acc.append(lines[k].as_str());
            proof {
                reveal_strlit("\n");
                assert("\n"@ =~= seq!['\n']);
                assert(acc@ =~= spec_join_nl(pre) + seq!['\n'] + lines.deep_view()[k as int]);
            }
        }
        k = k + 1;
    }
    proof {
        assert(lines.deep_view().subrange(0, lines.deep_view().len() as int) =~= lines.deep_view());
    }
    acc
}

// ---------------------------------------------------------------------
// The canonical written form
// ---------------------------------------------------------------------

/// The lines of a health-check block under the given field prefixes.
pub open spec fn ss_health(h: HealthCheckConfigV, pp: Seq<char>, rp: Seq<char>, dp: Seq<char>) -> Seq<
    Seq<char>,
> {
    seq![
        pp + h.path,
        rp + spec_dec(h.retry_count as nat),
        dp + spec_dec(h.retry_delay_seconds as nat),
    ]
}

/// The lines of one service item.
pub open spec fn ss_service(s: ServiceV) -> Seq<Seq<char>> {
    seq![
        "  - name: "@ + s.name,
        "    host: "@ + s.host,
        "    port: "@ + spec_dec(s.port as nat),
    ] + (match s.previous_port {
        Some(p) => seq!["    previous_port: "@ + spec_dec(p as nat)],
        None => Seq::<Seq<char>>::empty(),
    }) + (match s.health_check {
        Some(h) => seq!["    health_check:"@] + ss_health(
            h,
            "      path: "@,
            "      retry_count: "@,
            "      retry_delay_seconds: "@,
        ),
        None => Seq::<Seq<char>>::empty(),
    })
}

pub open spec fn ss_services(ss: Seq<ServiceV>) -> Seq<Seq<char>>
    decreases ss.len(),
{
    if ss.len() == 0 {
        Seq::empty()
    } else {
        ss_service(ss[0]) + ss_services(ss.drop_first())
    }
}

/// The lines of a name list in block style.
pub open spec fn ss_entries(es: Seq<Seq<char>>) -> Seq<Seq<char>>
    decreases es.len(),
{
    if es.len() == 0 {
        Seq::empty()
    } else {
        seq!["        - "@ + es[0]] + ss_entries(es.drop_first())
    }
}

/// The lines of one route item.
pub open spec fn ss_route(r: RouteV) -> Seq<Seq<char>> {
    seq!["  - domain: "@ + r.domain] + match r.target {
        RouteTargetV::Service { service } => seq!["    service: "@ + service],
        RouteTargetV::Static { root, index, try_files } => seq![
            "    static:"@,
            "      root: "@ + root,
            "      index:"@,
        ] + ss_entries(index) + seq!["      try_files:"@] + ss_entries(try_files),
    }
}

pub open spec fn ss_routes(rs: Seq<RouteV>) -> Seq<Seq<char>>
    decreases rs.len(),
{
    if rs.len() == 0 {
        Seq::empty()
    } else {
        ss_route(rs[0]) + ss_routes(rs.drop_first())
    }
}

/// Every line of the canonical written form of `c`, in order.
pub open spec fn ss_config(c: ConfigV) -> Seq<Seq<char>> {
    seq![
        "api_port: "@ + spec_dec(c.api_port as nat),
        "proxy_port: "@ + spec_dec(c.proxy_port as nat),
        "health_check:"@,
    ] + ss_health(c.health_check, "  path: "@, "  retry_count: "@, "  retry_delay_seconds: "@)
        + seq!["services:"@] + ss_services(c.services) + seq!["routes:"@] + ss_routes(c.routes)
}

/// The canonical written form of `c`.
pub open spec fn spec_serialize(c: ConfigV) -> Seq<char> {
    spec_join_nl(ss_config(c))
}

proof fn lemma_ss_services_snoc(ss: Seq<ServiceV>, k: int)
    requires
        0 <= k < ss.len(),
    ensures
        ss_services(ss.subrange(0, k + 1)) == ss_services(ss.subrange(0, k)) + ss_service(ss[k]),
    decreases k,
{
    let a = ss.subrange(0, k + 1);
    if k == 0 {
        assert(a.drop_first() =~= Seq::<ServiceV>::empty());
        assert(ss_services(a) == ss_service(a[0]) + ss_services(a.drop_first()));
        assert(ss.subrange(0, 0) =~= Seq::<ServiceV>::empty());
        assert(ss_services(ss.subrange(0, 0)) + ss_service(ss[0]) =~= ss_service(ss[0]));
        assert(ss_service(a[0]) + ss_services(a.drop_first()) =~= ss_service(ss[0]));
    } else {
        lemma_ss_services_snoc(ss.drop_first(), k - 1);
        assert(a.drop_first() =~= ss.drop_first().subrange(0, k));
        assert(ss.subrange(0, k).drop_first() =~= ss.drop_first().subrange(0, k - 1));
        assert(ss.drop_first()[k - 1] == ss[k]);
        assert(ss_services(a) == ss_service(ss[0]) + ss_services(ss.drop_first().subrange(0, k)));
        assert(ss_services(ss.drop_first().subrange(0, k)) == ss_services(
            ss.drop_first().subrange(0, k - 1),
        ) + ss_service(ss[k]));
        assert(ss_services(ss.subrange(0, k)) == ss_service(ss[0]) + ss_services(
            ss.drop_first().subrange(0, k - 1),
        ));
        assert(ss_service(ss[0]) + (ss_services(ss.drop_first().subrange(0, k - 1)) + ss_service(
            ss[k],
        )) =~= (ss_service(ss[0]) + ss_services(ss.drop_first().subrange(0, k - 1))) + ss_service(
            ss[k],
        ));
    }
}

proof fn lemma_ss_routes_snoc(rs: Seq<RouteV>, k: int)
    requires
        0 <= k < rs.len(),
    ensures
        ss_routes(rs.subrange(0, k + 1)) == ss_routes(rs.subrange(0, k)) + ss_route(rs[k]),
    decreases k,
{
    let a = rs.subrange(0, k + 1);
    if k == 0 {
        assert(a.drop_first() =~= Seq::<RouteV>::empty());
        assert(rs.subrange(0, 0) =~= Seq::<RouteV>::empty());
        assert(ss_routes(rs.subrange(0, 0)) + ss_route(rs[0]) =~= ss_route(rs[0]));
        assert(ss_route(a[0]) + ss_routes(a.drop_first()) =~= ss_route(rs[0]));
    } else {
        lemma_ss_routes_snoc(rs.drop_first(), k - 1);
        assert(a.drop_first() =~= rs.drop_first().subrange(0, k));
        assert(rs.subrange(0, k).drop_first() =~= rs.drop_first().subrange(0, k - 1));
        assert(rs.drop_first()[k - 1] == rs[k]);
        assert(ss_route(rs[0]) + (ss_routes(rs.drop_first().subrange(0, k - 1)) + ss_route(rs[k]))
            =~= (ss_route(rs[0]) + ss_routes(rs.drop_first().subrange(0, k - 1))) + ss_route(
            rs[k],
        ));
    }
}

proof fn lemma_ss_entries_snoc(es: Seq<Seq<char>>, k: int)
    requires
        0 <= k < es.len(),
    ensures
        ss_entries(es.subrange(0, k + 1)) == ss_entries(es.subrange(0, k)) + seq![
            "        - "@ + es[k],
        ],
    decreases k,
{
    let a = es.subrange(0, k + 1);
    if k == 0 {
        assert(a.drop_first() =~= Seq::<Seq<char>>::empty());
        assert(es.subrange(0, 0) =~= Seq::<Seq<char>>::empty());
        assert(ss_entries(es.subrange(0, 0)) + seq!["        - "@ + es[0]] =~= seq![
            "        - "@ + es[0],
        ]);
        assert(seq!["        - "@ + a[0]] + ss_entries(a.drop_first()) =~= seq![
            "        - "@ + es[0],
        ]);
    } else {
        lemma_ss_entries_snoc(es.drop_first(), k - 1);
        assert(a.drop_first() =~= es.drop_first().subrange(0, k));
        assert(es.subrange(0, k).drop_first() =~= es.drop_first().subrange(0, k - 1));
        assert(es.drop_first()[k - 1] == es[k]);
        assert(seq!["        - "@ + es[0]] + (ss_entries(es.drop_first().subrange(0, k - 1))
            + seq!["        - "@ + es[k]]) =~= (seq!["        - "@ + es[0]] + ss_entries(
            es.drop_first().subrange(0, k - 1),
        )) + seq!["        - "@ + es[k]]);
    }
}

// ---------------------------------------------------------------------
// The writer
// ---------------------------------------------------------------------

fn push_text_line(lines: &mut Vec<String>, pfx: &str, value: &str)
    ensures
        final(lines).deep_view() == old(lines).deep_view().push(pfx@ + value@),
{
    broadcast use lemma_lines_deep_view;

    let mut l = pfx.to_owned();
    l.append(value);
    let ghost lv = l@;
    lines.push(l);
    proof {
        assert(lines.deep_view() =~= old(lines).deep_view().push(lv));
    }
}

fn push_num_line(lines: &mut Vec<String>, pfx: &str, value: u64)
    ensures
        final(lines).deep_view() == old(lines).deep_view().push(pfx@ + spec_dec(value as nat)),
{
    broadcast use lemma_lines_deep_view;

    let mut l = pfx.to_owned();
    let d = crate::digits::u64_to_string(value);
    l.append(d.as_str());
    let ghost lv = l@;
    lines.push(l);
    proof {
        assert(lines.deep_view() =~= old(lines).deep_view().push(lv));
    }
}

fn push_bare_line(lines: &mut Vec<String>, text: &str)
    ensures
        final(lines).deep_view() == old(lines).deep_view().push(text@),
{
    broadcast use lemma_lines_deep_view;

    let l = text.to_owned();
    let ghost lv = l@;
    lines.push(l);
    proof {
        assert(lines.deep_view() =~= old(lines).deep_view().push(lv));
    }
}

fn write_health(lines: &mut Vec<String>, h: &HealthCheckConfig, pp: &str, rp: &str, dp: &str)
    ensures
        final(lines).deep_view() == old(lines).deep_view() + ss_health(h@, pp@, rp@, dp@),
{
    push_text_line(lines, pp, h.path.as_str());
    push_num_line(lines, rp, h.retry_count as u64);
    push_num_line(lines, dp, h.retry_delay_seconds);
    proof {
        assert(lines.deep_view() =~= old(lines).deep_view() + ss_health(h@, pp@, rp@, dp@));
    }
}

fn write_service(lines: &mut Vec<String>, s: &Service)
    ensures
        final(lines).deep_view() == old(lines).deep_view() + ss_service(s@),
{
    push_text_line(lines, "  - name: ", s.name.as_str());
    push_text_line(lines, "    host: ", s.host.as_str());
    push_num_line(lines, "    port: ", s.port as u64);
    match &s.previous_port {
        Some(p) => {
            push_num_line(lines, "    previous_port: ", *p as u64);
        },
        None => {},
    }
    match &s.health_check {
        Some(h) => {
            push_bare_line(lines, "    health_check:");
            write_health(
                lines,
                h,
                "      path: ",
                "      retry_count: ",
                "      retry_delay_seconds: ",
            );
        },
        None => {},
    }
    proof {
        assert(lines.deep_view() =~= old(lines).deep_view() + ss_service(s@));
    }
}

fn write_route(lines: &mut Vec<String>, r: &Route)
    ensures
        final(lines).deep_view() == old(lines).deep_view() + ss_route(r@),
{
    push_text_line(lines, "  - domain: ", r.domain.as_str());
    match &r.target {
        RouteTarget::Service { service } => {
            push_text_line(lines, "    service: ", service.as_str());
        },
        RouteTarget::Static { root, index, try_files } => {
            push_bare_line(lines, "    static:");
            push_text_line(lines, "      root: ", root.as_str());
            push_bare_line(lines, "      index:");
            let ghost base = lines.deep_view();
            let mut k: usize = 0;
            while k < index.len()
                invariant
                    0 <= k <= index@.len(),
                    lines.deep_view() =~= base + ss_entries(index.deep_view().subrange(0, k as int)),
                decreases index@.len() - k,
            {
                broadcast use lemma_lines_deep_view;

                push_text_line(lines, "        - ", index[k].as_str());
                proof {
                    lemma_ss_entries_snoc(index.deep_view(), k as int);
                    assert(index.deep_view().subrange(0, k as int + 1).subrange(0, k as int)
                        =~= index.deep_view().subrange(0, k as int));
                    assert(lines.deep_view() =~= base + ss_entries(
                        index.deep_view().subrange(0, k as int + 1),
                    ));
                }
                k = k + 1;
            }
            proof {
                assert(index.deep_view().subrange(0, index.deep_view().len() as int)
                    =~= index.deep_view());
            }
            push_bare_line(lines, "      try_files:");
            let ghost base2 = lines.deep_view();
            let mut m: usize = 0;
            while m < try_files.len()
                invariant
                    0 <= m <= try_files@.len(),
                    lines.deep_view() =~= base2 + ss_entries(
                        try_files.deep_view().subrange(0, m as int),
                    ),
                decreases try_files@.len() - m,
            {
                broadcast use lemma_lines_deep_view;

                push_text_line(lines, "        - ", try_files[m].as_str());
                proof {
                    lemma_ss_entries_snoc(try_files.deep_view(), m as int);
                    assert(try_files.deep_view().subrange(0, m as int + 1).subrange(0, m as int)
                        =~= try_files.deep_view().subrange(0, m as int));
                    assert(lines.deep_view() =~= base2 + ss_entries(
                        try_files.deep_view().subrange(0, m as int + 1),
                    ));
                }
                m = m + 1;
            }
            proof {
                assert(try_files.deep_view().subrange(0, try_files.deep_view().len() as int)
                    =~= try_files.deep_view());
            }
        },
    }
    proof {
        assert(lines.deep_view() =~= old(lines).deep_view() + ss_route(r@));
    }
}

/// Write out the canonical lines of `c`.
pub fn config_lines(c: &Config) -> (r: Vec<String>)
    ensures
        r.deep_view() == ss_config(c@),
{
    let mut lines: Vec<String> = Vec::new();
    push_num_line(&mut lines, "api_port: ", c.api_port as u64);
    push_num_line(&mut lines, "proxy_port: ", c.proxy_port as u64);
    push_bare_line(&mut lines, "health_check:");
    write_health(
        &mut lines,
        &c.health_check,
        "  path: ",
        "  retry_count: ",
        "  retry_delay_seconds: ",
    );
    push_bare_line(&mut lines, "services:");
    let ghost base = lines.deep_view();
    let mut k: usize = 0;
    while k < c.services.len()
        invariant
            0 <= k <= c.services@.len(),
            lines.deep_view() =~= base + ss_services(c@.services.subrange(0, k as int)),
            c@.services.len() == c.services@.len(),
            forall|j: int| 0 <= j < c.services@.len() ==> c@.services[j] == (
            #[trigger] c.services@[j])@,
        decreases c.services@.len() - k,
    {
        write_service(&mut lines, &c.services[k]);
        proof {
            lemma_ss_services_snoc(c@.services, k as int);
            assert(c@.services.subrange(0, k as int + 1).subrange(0, k as int) =~= c@.services.subrange(
                0,
                k as int,
            ));
            assert(lines.deep_view() =~= base + ss_services(c@.services.subrange(0, k as int + 1)));
        }
        k = k + 1;
    }
    proof {
        assert(c@.services.subrange(0, c@.services.len() as int) =~= c@.services);
    }
    push_bare_line(&mut lines, "routes:");
    let ghost base2 = lines.deep_view();
    let mut m: usize = 0;
    while m < c.routes.len()
        invariant
            0 <= m <= c.routes@.len(),
            lines.deep_view() =~= base2 + ss_routes(c@.routes.subrange(0, m as int)),
            c@.routes.len() == c.routes@.len(),
            forall|j: int| 0 <= j < c.routes@.len() ==> c@.routes[j] == (#[trigger] c.routes@[j])@,
        decreases c.routes@.len() - m,
    {
        write_route(&mut lines, &c.routes[m]);
        proof {
            lemma_ss_routes_snoc(c@.routes, m as int);
            assert(c@.routes.subrange(0, m as int + 1).subrange(0, m as int) =~= c@.routes.subrange(
                0,
                m as int,
            ));
            assert(lines.deep_view() =~= base2 + ss_routes(c@.routes.subrange(0, m as int + 1)));
        }
        m = m + 1;
    }
    proof {
        assert(c@.routes.subrange(0, c@.routes.len() as int) =~= c@.routes);
        assert(lines.deep_view() =~= ss_config(c@));
    }
    lines
}

/// Write `c` in its canonical text form. The form is line-based, so a
/// text field holding a newline cannot survive it; such documents are
/// refused by [`try_serialize_config`], which gates this function.
pub fn serialize_config(c: &Config) -> (r: String)
    requires
        spec_wf_config_text(c@),
    ensures
        r@ == spec_serialize(c@),
{
    let lines = config_lines(c);
    join_lines(&lines)
}

fn text_clean(s: &str) -> (r: bool)
    ensures
        r == wf_text(s@),
{
    let len = s.unicode_len();
    let mut i: usize = 0;
    while i < len
        invariant
            len == s@.len(),
            0 <= i <= len,
            forall|k: int| 0 <= k < i ==> s@[k] != '\n',
        decreases len - i,
    {
        if s.get_char(i) == '\n' {
            return false;
        }
        i = i + 1;
    }
    proof {
        if s@.contains('\n') {
            let w = choose|k: int| 0 <= k < s@.len() && s@[k] == '\n';
            assert(s@[w] != '\n');
        }
    }
    true
}

fn string_list_clean(v: &Vec<String>) -> (r: bool)
    ensures
        r == wf_texts(v.deep_view()),
{
    broadcast use lemma_lines_deep_view;

    let mut i: usize = 0;
    while i < v.len()
        invariant
            0 <= i <= v@.len(),
            forall|k: int| 0 <= k < i ==> wf_text(#[trigger] v.deep_view()[k]),
        decreases v@.len() - i,
    {
        if !text_clean(v[i].as_str()) {
            proof {
                assert(!wf_text(v.deep_view()[i as int]));
            }
            return false;
        }
        i = i + 1;
    }
    true
}

fn service_text_is_clean(s: &Service) -> (r: bool)
    ensures
        r == wf_service_text(s@),
{
    if !text_clean(s.name.as_str()) {
        return false;
    }
    if !text_clean(s.host.as_str()) {
        return false;
    }
    match &s.health_check {
        Some(h) => text_clean(h.path.as_str()),
        None => true,
    }
}

fn route_text_is_clean(rt: &Route) -> (r: bool)
    ensures
        r == wf_route_text(rt@),
{
    if !text_clean(rt.domain.as_str()) {
        return false;
    }
    match &rt.target {
        RouteTarget::Service { service } => {
            proof {
                assert(rt@.target == RouteTargetV::Service { service: service@ });
            }
            text_clean(service.as_str())
        },
        RouteTarget::Static { root, index, try_files } => {
            proof {
                assert(rt@.target == RouteTargetV::Static {
                    root: root@,
                    index: index.deep_view(),
                    try_files: try_files.deep_view(),
                });
            }
            if !text_clean(root.as_str()) {
                return false;
            }
            let ix_ok = string_list_clean(index);
            let tf_ok = string_list_clean(try_files);
            ix_ok && tf_ok
        },
    }
}

/// Every text field of `c` is newline-free, so `c` fits the written form.
pub fn config_text_is_clean(c: &Config) -> (r: bool)
    ensures
        r == spec_wf_config_text(c@),
{
    if !text_clean(c.health_check.path.as_str()) {
        return false;
    }
    let mut i: usize = 0;
    while i < c.services.len()
        invariant
            c@.services.len() == c.services@.len(),
            forall|k: int| 0 <= k < c.services@.len() ==> c@.services[k] == (
            #[trigger] c.services@[k])@,
            0 <= i <= c.services@.len(),
            forall|k: int| 0 <= k < i ==> wf_service_text(#[trigger] c@.services[k]),
        decreases c.services@.len() - i,
    {
        if !service_text_is_clean(&c.services[i]) {
            proof {
                assert(!wf_service_text(c@.services[i as int]));
            }
            return false;
        }
        i = i + 1;
    }
    let mut m: usize = 0;
    while m < c.routes.len()
        invariant
            c@.services.len() == c.services@.len(),
            forall|k: int|
                0 <= k < c.services@.len() ==> wf_service_text(#[trigger] c@.services[k]),
            wf_hc_text(c@.health_check),
            c@.routes.len() == c.routes@.len(),
            forall|k: int| 0 <= k < c.routes@.len() ==> c@.routes[k] == (#[trigger] c.routes@[k])@,
            0 <= m <= c.routes@.len(),
            forall|k: int| 0 <= k < m ==> wf_route_text(#[trigger] c@.routes[k]),
        decreases c.routes@.len() - m,
    {
        if !route_text_is_clean(&c.routes[m]) {
            proof {
                assert(!wf_route_text(c@.routes[m as int]));
            }
            return false;
        }
        m = m + 1;
    }
    true
}

/// Write `c` when it fits the written form: `None` exactly when some text
/// field holds a newline, so the proved round trip covers every written
/// document.
pub fn try_serialize_config(c: &Config) -> (r: Option<String>)
    ensures
        match r {
            Some(t) => spec_wf_config_text(c@) && t@ == spec_serialize(c@),
            None => !spec_wf_config_text(c@),
        },
{
    if config_text_is_clean(c) {
        Some(serialize_config(c))
    } else {
        None
    }
}

// ---------------------------------------------------------------------
// The reader's grammar
// ---------------------------------------------------------------------

/// `l` begins with `p`.
pub open spec fn spec_starts_with(l: Seq<char>, p: Seq<char>) -> bool {
    l.len() >= p.len() && l.subrange(0, p.len() as int) == p
}

/// `l` with its prefix `p` removed.
pub open spec fn spec_rest(l: Seq<char>, p: Seq<char>) -> Seq<char> {
    l.subrange(p.len() as int, l.len() as int)
}

/// A field line at cursor `i`: its value and the next cursor.
pub open spec fn sp_text(lines: Seq<Seq<char>>, i: int, pfx: Seq<char>) -> Option<(Seq<char>, int)> {
    if 0 <= i < lines.len() && spec_starts_with(lines[i], pfx) {
        Some((spec_rest(lines[i], pfx), i + 1))
    } else {
        None
    }
}

/// A numeric field line at cursor `i`, bounded by `max`.
pub open spec fn sp_num(lines: Seq<Seq<char>>, i: int, pfx: Seq<char>, max: nat) -> Option<
    (nat, int),
> {
    match sp_text(lines, i, pfx) {
        Some((v, j)) => match spec_parse_u64(v) {
            Some(n) => if n <= max {
                Some((n, j))
            } else {
                None
            },
            None => None,
        },
        None => None,
    }
}

/// The line at cursor `i` is exactly `l`.
pub open spec fn sp_exact(lines: Seq<Seq<char>>, i: int, l: Seq<char>) -> bool {
    0 <= i < lines.len() && lines[i] == l
}

/// A health-check block's fields, each optional with its default; a field
/// that is present but not a number refuses the document.
pub open spec fn sp_health(
    lines: Seq<Seq<char>>,
    i: int,
    pp: Seq<char>,
    rp: Seq<char>,
    dp: Seq<char>,
) -> Option<(HealthCheckConfigV, int)> {
    let path_step = match sp_text(lines, i, pp) {
        Some((v, j)) => (v, j),
        None => ("/"@, i),
    };
    let rc_step = if 0 <= path_step.1 < lines.len() && spec_starts_with(lines[path_step.1], rp) {
        sp_num(lines, path_step.1, rp, u32::MAX as nat)
    } else {
        Some((10 as nat, path_step.1))
    };
    match rc_step {
        None => None,
        Some((rc, i2)) => {
            let rd_step = if 0 <= i2 < lines.len() && spec_starts_with(lines[i2], dp) {
                sp_num(lines, i2, dp, u64::MAX as nat)
            } else {
                Some((1 as nat, i2))
            };
            match rd_step {
                None => None,
                Some((rd, i3)) => Some(
                    (
                        HealthCheckConfigV {
                            path: path_step.0,
                            retry_count: rc as u32,
                            retry_delay_seconds: rd as u64,
                        },
                        i3,
                    ),
                ),
            }
        },
    }
}

/// One service item.
pub open spec fn sp_service(lines: Seq<Seq<char>>, i: int) -> Option<(ServiceV, int)> {
    match sp_text(lines, i, "  - name: "@) {
        None => None,
        Some((name, i1)) => match sp_text(lines, i1, "    host: "@) {
            None => None,
            Some((host, i2)) => match sp_num(lines, i2, "    port: "@, u16::MAX as nat) {
                None => None,
                Some((port, i3)) => {
                    let prev_step = if 0 <= i3 < lines.len() && spec_starts_with(
                        lines[i3],
                        "    previous_port: "@,
                    ) {
                        match sp_num(lines, i3, "    previous_port: "@, u16::MAX as nat) {
                            Some((p, j)) => Some((Some(p as u16), j)),
                            None => None,
                        }
                    } else {
                        Some((None::<u16>, i3))
                    };
                    match prev_step {
                        None => None,
                        Some((prev, i4)) => {
                            let hc_step = if sp_exact(lines, i4, "    health_check:"@) {
                                match sp_health(
                                    lines,
                                    i4 + 1,
                                    "      path: "@,
                                    "      retry_count: "@,
                                    "      retry_delay_seconds: "@,
                                ) {
                                    Some((h, j)) => Some((Some(h), j)),
                                    None => None,
                                }
                            } else {
                                Some((None::<HealthCheckConfigV>, i4))
                            };
                            match hc_step {
                                None => None,
                                Some((hc, i5)) => Some(
                                    (
                                        ServiceV {
                                            name,
                                            host,
                                            port: port as u16,
                                            health_check: hc,
                                            previous_port: prev,
                                        },
                                        i5,
                                    ),
                                ),
                            }
                        },
                    }
                },
            },
        },
    }
}

/// The service list: items as long as one begins at the cursor.
pub open spec fn sp_services(lines: Seq<Seq<char>>, i: int) -> Option<(Seq<ServiceV>, int)>
    decreases lines.len() - i,
{
    if 0 <= i < lines.len() && spec_starts_with(lines[i], "  - name: "@) {
        match sp_service(lines, i) {
            None => None,
            Some((s, j)) => if i < j <= lines.len() {
                match sp_services(lines, j) {
                    None => None,
                    Some((rest, k)) => Some((seq![s] + rest, k)),
                }
            } else {
                None
            },
        }
    } else {
        Some((Seq::empty(), i))
    }
}

/// A block-style name list: one entry per `        - ` line.
pub open spec fn sp_entry_list(lines: Seq<Seq<char>>, i: int) -> (Seq<Seq<char>>, int)
    decreases lines.len() - i,
{
    match sp_text(lines, i, "        - "@) {
        Some((v, j)) => {
            let rest = sp_entry_list(lines, j);
            (seq![v] + rest.0, rest.1)
        },
        None => (Seq::empty(), i),
    }
}

/// One route item: a domain, then either a service reference or a static
/// block.
pub open spec fn sp_route(lines: Seq<Seq<char>>, i: int) -> Option<(RouteV, int)> {
    match sp_text(lines, i, "  - domain: "@) {
        None => None,
        Some((domain, i1)) => match sp_text(lines, i1, "    service: "@) {
            Some((service, i2)) => Some(
                (RouteV { domain, target: RouteTargetV::Service { service } }, i2),
            ),
            None => if sp_exact(lines, i1, "    static:"@) {
                match sp_text(lines, i1 + 1, "      root: "@) {
                    None => None,
                    Some((root, i2)) => {
                        let index_step = if sp_exact(lines, i2, "      index:"@) {
                            Some(sp_entry_list(lines, i2 + 1))
                        } else if sp_exact(lines, i2, "      index: []"@) {
                            Some((Seq::<Seq<char>>::empty(), i2 + 1))
                        } else {
                            None
                        };
                        match index_step {
                            None => None,
                            Some((index, i3)) => {
                                let tf_step = if sp_exact(lines, i3, "      try_files:"@) {
                                    Some(sp_entry_list(lines, i3 + 1))
                                } else if sp_exact(lines, i3, "      try_files: []"@) {
                                    Some((Seq::<Seq<char>>::empty(), i3 + 1))
                                } else {
                                    None
                                };
                                match tf_step {
                                    None => None,
                                    Some((try_files, i4)) => Some(
                                        (
                                            RouteV {
                                                domain,
                                                target: RouteTargetV::Static {
                                                    root,
                                                    index,
                                                    try_files,
                                                },
                                            },
                                            i4,
                                        ),
                                    ),
                                }
                            },
                        }
                    },
                }
            } else {
                None
            },
        },
    }
}

/// The route list.
pub open spec fn sp_routes(lines: Seq<Seq<char>>, i: int) -> Option<(Seq<RouteV>, int)>
    decreases lines.len() - i,
{
    if 0 <= i < lines.len() && spec_starts_with(lines[i], "  - domain: "@) {
        match sp_route(lines, i) {
            None => None,
            Some((r, j)) => if i < j <= lines.len() {
                match sp_routes(lines, j) {
                    None => None,
                    Some((rest, k)) => Some((seq![r] + rest, k)),
                }
            } else {
                None
            },
        }
    } else {
        Some((Seq::empty(), i))
    }
}

/// The line at cursor `i` has the shape of a mapping entry: it holds a
/// colon somewhere.
pub open spec fn sp_field_line(lines: Seq<Seq<char>>, i: int) -> bool {
    0 <= i < lines.len() && exists|j: int| 0 <= j < lines[i].len() && lines[i][j] == ':'
}

/// Why a required numeric field at cursor `i` could not be read: its own
/// line with a bad value is malformed text, any other mapping line in its
/// place (or an exhausted document) is a missing or unknown field, and a
/// line that is no mapping entry at all is malformed text.
pub open spec fn sp_field_fail_kind(lines: Seq<Seq<char>>, i: int, pfx: Seq<char>) -> ConfigError {
    if 0 <= i < lines.len() && spec_starts_with(lines[i], pfx) {
        ConfigError::Parse
    } else if sp_field_line(lines, i) {
        ConfigError::Schema
    } else {
        ConfigError::Parse
    }
}

/// Why a required section header at cursor `i` could not be read: a
/// mapping line in its place (or an exhausted document) is a missing or
/// unknown field, anything else is malformed text. The same rule
/// classifies a line left over after the document's end.
pub open spec fn sp_header_fail_kind(lines: Seq<Seq<char>>, i: int) -> ConfigError {
    if 0 <= i < lines.len() && !sp_field_line(lines, i) {
        ConfigError::Parse
    } else {
        ConfigError::Schema
    }
}

/// The whole document: the two ports, an optional default health check,
/// the two lists (block style, or `[]` for an empty one), and nothing
/// after them. A refusal says whether the text is malformed or a
/// required field is missing or unknown.
pub open spec fn sp_config(lines: Seq<Seq<char>>) -> Result<ConfigV, ConfigError> {
    match sp_num(lines, 0, "api_port: "@, u16::MAX as nat) {
        None => Err(sp_field_fail_kind(lines, 0, "api_port: "@)),
        Some((api, i1)) => match sp_num(lines, i1, "proxy_port: "@, u16::MAX as nat) {
            None => Err(sp_field_fail_kind(lines, i1, "proxy_port: "@)),
            Some((proxy, i2)) => {
                let hc_step = if sp_exact(lines, i2, "health_check:"@) {
                    sp_health(
                        lines,
                        i2 + 1,
                        "  path: "@,
                        "  retry_count: "@,
                        "  retry_delay_seconds: "@,
                    )
                } else {
                    Some((crate::config::spec_default_health_check(), i2))
                };
                match hc_step {
                    None => Err(ConfigError::Parse),
                    Some((hc, i3)) => {
                        let svc_step = if sp_exact(lines, i3, "services:"@) {
                            match sp_services(lines, i3 + 1) {
                                None => Err(ConfigError::Parse),
                                Some(p) => Ok(p),
                            }
                        } else if sp_exact(lines, i3, "services: []"@) {
                            Ok((Seq::<ServiceV>::empty(), i3 + 1))
                        } else {
                            Err(sp_header_fail_kind(lines, i3))
                        };
                        match svc_step {
                            Err(e) => Err(e),
                            Ok((svcs, i4)) => {
                                let rt_step = if sp_exact(lines, i4, "routes:"@) {
                                    match sp_routes(lines, i4 + 1) {
                                        None => Err(ConfigError::Parse),
                                        Some(p) => Ok(p),
                                    }
                                } else if sp_exact(lines, i4, "routes: []"@) {
                                    Ok((Seq::<RouteV>::empty(), i4 + 1))
                                } else {
                                    Err(sp_header_fail_kind(lines, i4))
                                };
                                match rt_step {
                                    Err(e) => Err(e),
                                    Ok((rts, i5)) => if i5 == lines.len() {
                                        Ok(
                                            ConfigV {
                                                services: svcs,
                                                routes: rts,
                                                api_port: api as u16,
                                                proxy_port: proxy as u16,
                                                health_check: hc,
                                            },
                                        )
                                    } else {
                                        Err(sp_header_fail_kind(lines, i5))
                                    },
                                }
                            },
                        }
                    },
                }
            },
        },
    }
}

// ---------------------------------------------------------------------
// The reader
// ---------------------------------------------------------------------

proof fn lemma_sp_health_bounds(
    lines: Seq<Seq<char>>,
    i: int,
    pp: Seq<char>,
    rp: Seq<char>,
    dp: Seq<char>,
)
    requires
        0 <= i <= lines.len(),
    ensures
        match sp_health(lines, i, pp, rp, dp) {
            Some((h, j)) => i <= j <= lines.len(),
            None => true,
        },
{
}

proof fn lemma_sp_service_bounds(lines: Seq<Seq<char>>, i: int)
    requires
        0 <= i <= lines.len(),
    ensures
        match sp_service(lines, i) {
            Some((s, j)) => i < j <= lines.len(),
            None => true,
        },
{
    match sp_text(lines, i, "  - name: "@) {
        None => {},
        Some((name, i1)) => match sp_text(lines, i1, "    host: "@) {
            None => {},
            Some((host, i2)) => match sp_num(lines, i2, "    port: "@, u16::MAX as nat) {
                None => {},
                Some((port, i3)) => {
                    if 0 <= i3 < lines.len() && spec_starts_with(
                        lines[i3],
                        "    previous_port: "@,
                    ) {
                        match sp_num(lines, i3, "    previous_port: "@, u16::MAX as nat) {
                            None => {},
                            Some((p, i4)) => {
                                lemma_sp_hc_step(lines, i4);
                            },
                        }
                    } else {
                        lemma_sp_hc_step(lines, i3);
                    }
                },
            },
        },
    }
}

proof fn lemma_sp_hc_step(lines: Seq<Seq<char>>, i4: int)
    requires
        0 <= i4 <= lines.len(),
    ensures
        sp_exact(lines, i4, "    health_check:"@) ==> match sp_health(
            lines,
            i4 + 1,
            "      path: "@,
            "      retry_count: "@,
            "      retry_delay_seconds: "@,
        ) {
            Some((h, j)) => i4 < j <= lines.len(),
            None => true,
        },
{
    if sp_exact(lines, i4, "    health_check:"@) {
        lemma_sp_health_bounds(
            lines,
            i4 + 1,
            "      path: "@,
            "      retry_count: "@,
            "      retry_delay_seconds: "@,
        );
    }
}

proof fn lemma_sp_entry_list_bounds(lines: Seq<Seq<char>>, i: int)
    requires
        0 <= i <= lines.len(),
    ensures
        i <= sp_entry_list(lines, i).1 <= lines.len(),
    decreases lines.len() - i,
{
    match sp_text(lines, i, "        - "@) {
        Some((v, j)) => {
            lemma_sp_entry_list_bounds(lines, j);
        },
        None => {},
    }
}

proof fn lemma_sp_route_bounds(lines: Seq<Seq<char>>, i: int)
    requires
        0 <= i <= lines.len(),
    ensures
        match sp_route(lines, i) {
            Some((r, j)) => i < j <= lines.len(),
            None => true,
        },
{
    if sp_route(lines, i) is Some {
        match sp_text(lines, i, "  - domain: "@) {
            None => {},
            Some((domain, i1)) => {
                if sp_text(lines, i1, "    service: "@) is None && sp_exact(
                    lines,
                    i1,
                    "    static:"@,
                ) {
                    match sp_text(lines, i1 + 1, "      root: "@) {
                        None => {},
                        Some((root, i2)) => {
                            if sp_exact(lines, i2, "      index:"@) {
                                lemma_sp_entry_list_bounds(lines, i2 + 1);
                                let ix = sp_entry_list(lines, i2 + 1);
                                if sp_exact(lines, ix.1, "      try_files:"@) {
                                    lemma_sp_entry_list_bounds(lines, ix.1 + 1);
                                }
                            } else if sp_exact(lines, i2, "      index: []"@) {
                                if sp_exact(lines, i2 + 1, "      try_files:"@) {
                                    lemma_sp_entry_list_bounds(lines, i2 + 2);
                                }
                            }
                        },
                    }
                }
            },
        }
    }
}

fn line_starts(lines: &Vec<String>, i: usize, pfx: &str) -> (r: bool)
    ensures
        r == (i < lines.deep_view().len() && spec_starts_with(lines.deep_view()[i as int], pfx@)),
        r ==> i < lines@.len() <= usize::MAX,
{
    broadcast use lemma_lines_deep_view;

    if i < lines.len() {
        let l = lines[i].as_str();
        let ll = l.unicode_len();
        let pl = pfx.unicode_len();
        ll >= pl && crate::config::str_eq(l.substring_char(0, pl), pfx)
    } else {
        false
    }
}

fn line_is(lines: &Vec<String>, i: usize, text: &str) -> (r: bool)
    ensures
        r == sp_exact(lines.deep_view(), i as int, text@),
        r ==> i < lines@.len() <= usize::MAX,
{
    broadcast use lemma_lines_deep_view;

    if i < lines.len() {
        crate::config::str_eq(lines[i].as_str(), text)
    } else {
        false
    }
}

fn take_text(lines: &Vec<String>, i: usize, pfx: &str) -> (r: Option<(String, usize)>)
    requires
        i <= lines@.len(),
    ensures
        match r {
            Some(p) => sp_text(lines.deep_view(), i as int, pfx@) == Some((p.0@, p.1 as int))
                && p.1 == i + 1,
            None => sp_text(lines.deep_view(), i as int, pfx@) is None,
        },
{
    broadcast use lemma_lines_deep_view;

    if i < lines.len() {
        let l = lines[i].as_str();
        let ll = l.unicode_len();
        let pl = pfx.unicode_len();
        if ll >= pl && crate::config::str_eq(l.substring_char(0, pl), pfx) {
            Some((l.substring_char(pl, ll).to_owned(), i + 1))
        } else {
            None
        }
    } else {
        None
    }
}

fn take_num(lines: &Vec<String>, i: usize, pfx: &str, max: u64) -> (r: Option<(u64, usize)>)
    requires
        i <= lines@.len(),
    ensures
        match r {
            Some(p) => sp_num(lines.deep_view(), i as int, pfx@, max as nat) == Some(
                (p.0 as nat, p.1 as int),
            ) && p.1 == i + 1 && p.0 <= max,
            None => sp_num(lines.deep_view(), i as int, pfx@, max as nat) is None,
        },
{
    match take_text(lines, i, pfx) {
        Some((v, j)) => match crate::digits::parse_u64(v.as_str()) {
            Some(n) => if n <= max {
                Some((n, j))
            } else {
                None
            },
            None => None,
        },
        None => None,
    }
}

fn take_health(lines: &Vec<String>, i: usize, pp: &str, rp: &str, dp: &str) -> (r: Option<
    (HealthCheckConfig, usize),
>)
    requires
        i <= lines@.len(),
    ensures
        match r {
            Some(p) => sp_health(lines.deep_view(), i as int, pp@, rp@, dp@) == Some(
                (p.0@, p.1 as int),
            ) && i <= p.1 <= lines@.len(),
            None => sp_health(lines.deep_view(), i as int, pp@, rp@, dp@) is None,
        },
{
    broadcast use lemma_lines_deep_view;

    let (path, i1) = match take_text(lines, i, pp) {
        Some((v, j)) => (v, j),
        None => ("/".to_owned(), i),
    };
    let (rc, i2) = if line_starts(lines, i1, rp) {
        match take_num(lines, i1, rp, 0xffff_ffff) {
            Some(p) => p,
            None => {
                return None;
            },
        }
    } else {
        (10, i1)
    };
    let (rd, i3) = if line_starts(lines, i2, dp) {
        match take_num(lines, i2, dp, 0xffff_ffff_ffff_ffff) {
            Some(p) => p,
            None => {
                return None;
            },
        }
    } else {
        (1, i2)
    };
    Some(
        (
            HealthCheckConfig {
                path,
                retry_count: rc as u32,
                retry_delay_seconds: rd,
            },
            i3,
        ),
    )
}

fn take_service(lines: &Vec<String>, i: usize) -> (r: Option<(Service, usize)>)
    requires
        i <= lines@.len(),
    ensures
        match r {
            Some(p) => sp_service(lines.deep_view(), i as int) == Some((p.0@, p.1 as int)) && i
                < p.1 <= lines@.len(),
            None => sp_service(lines.deep_view(), i as int) is None,
        },
{
    broadcast use lemma_lines_deep_view;

    proof {
        assert(lines.deep_view().len() == lines@.len());
    }
    let (name, i1) = match take_text(lines, i, "  - name: ") {
        Some(p) => p,
        None => {
            return None;
        },
    };
    let (host, i2) = match take_text(lines, i1, "    host: ") {
        Some(p) => p,
        None => {
            return None;
        },
    };
    let (port, i3) = match take_num(lines, i2, "    port: ", 65535) {
        Some(p) => p,
        None => {
            return None;
        },
    };
    let (prev, i4) = if line_starts(lines, i3, "    previous_port: ") {
        match take_num(lines, i3, "    previous_port: ", 65535) {
            Some((p, j)) => (Some(p as u16), j),
            None => {
                return None;
            },
        }
    } else {
        (None, i3)
    };
    let (hc, i5) = if line_is(lines, i4, "    health_check:") {
        match take_health(
            lines,
            i4 + 1,
            "      path: ",
            "      retry_count: ",
            "      retry_delay_seconds: ",
        ) {
            Some((h, j)) => (Some(h), j),
            None => {
                return None;
            },
        }
    } else {
        (None, i4)
    };
    Some(
        (
            Service { name, host, port: port as u16, health_check: hc, previous_port: prev },
            i5,
        ),
    )
}

/// The views of a list of services, in order.
pub open spec fn svc_views(ss: Seq<Service>) -> Seq<ServiceV> {
    Seq::new(ss.len(), |i: int| ss[i]@)
}

/// The views of a list of routes, in order.
pub open spec fn route_views(rs: Seq<Route>) -> Seq<RouteV> {
    Seq::new(rs.len(), |i: int| rs[i]@)
}

fn take_services(lines: &Vec<String>, i: usize) -> (r: Option<(Vec<Service>, usize)>)
    requires
        i <= lines@.len(),
    ensures
        match r {
            Some(p) => sp_services(lines.deep_view(), i as int) == Some(
                (svc_views(p.0@), p.1 as int),
            ) && i <= p.1 <= lines@.len(),
            None => sp_services(lines.deep_view(), i as int) is None,
        },
    decreases lines@.len() - i,
{
    broadcast use lemma_lines_deep_view;

    if line_starts(lines, i, "  - name: ") {
        match take_service(lines, i) {
            None => None,
            Some((s, j)) => {
                match take_services(lines, j) {
                    None => None,
                    Some((mut rest, k)) => {
                        let ghost rv = svc_views(rest@);
                        let ghost sv = s@;
                        rest.insert(0, s);
                        proof {
                            assert(svc_views(rest@) =~= seq![sv] + rv);
                        }
                        Some((rest, k))
                    },
                }
            },
        }
    } else {
        Some((Vec::new(), i))
    }
}

fn take_entry_list(lines: &Vec<String>, i: usize) -> (r: (Vec<String>, usize))
    requires
        i <= lines@.len(),
    ensures
        sp_entry_list(lines.deep_view(), i as int) == (r.0.deep_view(), r.1 as int),
        i <= r.1 <= lines@.len(),
    decreases lines@.len() - i,
{
    broadcast use lemma_lines_deep_view;

    match take_text(lines, i, "        - ") {
        Some((v, j)) => {
            let (mut rest, k) = take_entry_list(lines, j);
            let ghost rv = rest.deep_view();
            let ghost vv = v@;
            rest.insert(0, v);
            proof {
                assert(rest.deep_view() =~= seq![vv] + rv);
            }
            (rest, k)
        },
        None => (Vec::new(), i),
    }
}

fn take_route(lines: &Vec<String>, i: usize) -> (r: Option<(Route, usize)>)
    requires
        i <= lines@.len(),
    ensures
        match r {
            Some(p) => sp_route(lines.deep_view(), i as int) == Some((p.0@, p.1 as int)) && i < p.1
                <= lines@.len(),
            None => sp_route(lines.deep_view(), i as int) is None,
        },
{
    broadcast use lemma_lines_deep_view;

    proof {
        assert(lines.deep_view().len() == lines@.len());
    }
    let (domain, i1) = match take_text(lines, i, "  - domain: ") {
        Some(p) => p,
        None => {
            return None;
        },
    };
    match take_text(lines, i1, "    service: ") {
        Some((service, i2)) => Some(
            (Route { domain, target: RouteTarget::Service { service } }, i2),
        ),
        None => {
            if line_is(lines, i1, "    static:") {
                let (root, i2) = match take_text(lines, i1 + 1, "      root: ") {
                    Some(p) => p,
                    None => {
                        return None;
                    },
                };
                let (index, i3) = if line_is(lines, i2, "      index:") {
                    take_entry_list(lines, i2 + 1)
                } else if line_is(lines, i2, "      index: []") {
                    let v: Vec<String> = Vec::new();
                    proof {
                        assert(v.deep_view() =~= Seq::<Seq<char>>::empty());
                    }
                    (v, i2 + 1)
                } else {
                    return None;
                };
                let (try_files, i4) = if line_is(lines, i3, "      try_files:") {
                    take_entry_list(lines, i3 + 1)
                } else if line_is(lines, i3, "      try_files: []") {
                    let v: Vec<String> = Vec::new();
                    proof {
                        assert(v.deep_view() =~= Seq::<Seq<char>>::empty());
                    }
                    (v, i3 + 1)
                } else {
                    return None;
                };
                Some(
                    (
                        Route {
                            domain,
                            target: RouteTarget::Static { root, index, try_files },
                        },
                        i4,
                    ),
                )
            } else {
                None
            }
        },
    }
}

fn take_routes(lines: &Vec<String>, i: usize) -> (r: Option<(Vec<Route>, usize)>)
    requires
        i <= lines@.len(),
    ensures
        match r {
            Some(p) => sp_routes(lines.deep_view(), i as int) == Some(
                (route_views(p.0@), p.1 as int),
            ) && i <= p.1 <= lines@.len(),
            None => sp_routes(lines.deep_view(), i as int) is None,
        },
    decreases lines@.len() - i,
{
    broadcast use lemma_lines_deep_view;

    if line_starts(lines, i, "  - domain: ") {
        match take_route(lines, i) {
            None => None,
            Some((rt, j)) => {
                match take_routes(lines, j) {
                    None => None,
                    Some((mut rest, k)) => {
                        let ghost rv = route_views(rest@);
                        let ghost tv = rt@;
                        rest.insert(0, rt);
                        proof {
                            assert(route_views(rest@) =~= seq![tv] + rv);
                        }
                        Some((rest, k))
                    },
                }
            },
        }
    } else {
        Some((Vec::new(), i))
    }
}

fn line_field(lines: &Vec<String>, i: usize) -> (r: bool)
    ensures
        r == sp_field_line(lines.deep_view(), i as int),
{
    broadcast use lemma_lines_deep_view;

    if i < lines.len() {
        let ghost lv = lines.deep_view()[i as int];
        let l = lines[i].as_str();
        let len = l.unicode_len();
        let mut j: usize = 0;
        while j < len
            invariant
                i < lines@.len(),
                lines.deep_view().len() == lines@.len(),
                lv == lines.deep_view()[i as int],
                lv == l@,
                len == l@.len(),
                0 <= j <= len,
                forall|k: int| 0 <= k < j ==> l@[k] != ':',
            decreases len - j,
        {
            if l.get_char(j) == ':' {
                return true;
            }
            j = j + 1;
        }
        proof {
            if exists|k: int| 0 <= k < lv.len() && lv[k] == ':' {
                let w = choose|k: int| 0 <= k < lv.len() && lv[k] == ':';
                assert(lv[w] != ':');
            }
        }
        false
    } else {
        false
    }
}

fn field_fail_kind(lines: &Vec<String>, i: usize, pfx: &str) -> (r: ConfigError)
    ensures
        r == sp_field_fail_kind(lines.deep_view(), i as int, pfx@),
{
    if line_starts(lines, i, pfx) {
        ConfigError::Parse
    } else if line_field(lines, i) {
        ConfigError::Schema
    } else {
        ConfigError::Parse
    }
}

fn header_fail_kind(lines: &Vec<String>, i: usize) -> (r: ConfigError)
    ensures
        r == sp_header_fail_kind(lines.deep_view(), i as int),
{
    broadcast use lemma_lines_deep_view;

    if i < lines.len() && !line_field(lines, i) {
        ConfigError::Parse
    } else {
        ConfigError::Schema
    }
}

fn parse_lines(lines: &Vec<String>) -> (r: Result<Config, ConfigError>)
    ensures
        match r {
            Ok(c) => sp_config(lines.deep_view()) == Ok::<ConfigV, ConfigError>(c@),
            Err(e) => sp_config(lines.deep_view()) == Err::<ConfigV, ConfigError>(e),
        },
{
    broadcast use lemma_lines_deep_view;

    proof {
        assert(lines.deep_view().len() == lines@.len());
    }
    let (api, i1) = match take_num(lines, 0, "api_port: ", 65535) {
        Some(p) => p,
        None => {
            return Err(field_fail_kind(lines, 0, "api_port: "));
        },
    };
    let (proxy, i2) = match take_num(lines, i1, "proxy_port: ", 65535) {
        Some(p) => p,
        None => {
            return Err(field_fail_kind(lines, i1, "proxy_port: "));
        },
    };
    let (hc, i3) = if line_is(lines, i2, "health_check:") {
        match take_health(lines, i2 + 1, "  path: ", "  retry_count: ", "  retry_delay_seconds: ")
        {
            Some(p) => p,
            None => {
                return Err(ConfigError::Parse);
            },
        }
    } else {
        (HealthCheckConfig::new_default(), i2)
    };
    let (services, i4) = if line_is(lines, i3, "services:") {
        match take_services(lines, i3 + 1) {
            Some(p) => p,
            None => {
                return Err(ConfigError::Parse);
            },
        }
    } else if line_is(lines, i3, "services: []") {
        (Vec::new(), i3 + 1)
    } else {
        return Err(header_fail_kind(lines, i3));
    };
    let (routes, i5) = if line_is(lines, i4, "routes:") {
        match take_routes(lines, i4 + 1) {
            Some(p) => p,
            None => {
                return Err(ConfigError::Parse);
            },
        }
    } else if line_is(lines, i4, "routes: []") {
        (Vec::new(), i4 + 1)
    } else {
        return Err(header_fail_kind(lines, i4));
    };
    if i5 != lines.len() {
        return Err(header_fail_kind(lines, i5));
    }
    let c = Config {
        services,
        routes,
        api_port: api as u16,
        proxy_port: proxy as u16,
        health_check: hc,
    };
    proof {
        assert(c@.services =~= svc_views(c.services@));
        assert(c@.routes =~= route_views(c.routes@));
        if c.services@.len() == 0 {
            assert(c@.services =~= Seq::<ServiceV>::empty());
        }
        if c.routes@.len() == 0 {
            assert(c@.routes =~= Seq::<RouteV>::empty());
        }
    }
    Ok(c)
}

/// Read a document from its text: malformed text is a parse error, a
/// missing or unknown field and a document that breaks the schema rules
/// are schema errors, and everything else the parsed, hydrated, valid
/// configuration.
pub fn parse_config(text: &str) -> (r: Result<Config, ConfigError>)
    ensures
        match r {
            Ok(c) => sp_config(spec_split_nl(text@)) == Ok::<ConfigV, ConfigError>(c@)
                && crate::config::spec_valid_config(c@),
            Err(ConfigError::Parse) => sp_config(spec_split_nl(text@)) == Err::<
                ConfigV,
                ConfigError,
            >(ConfigError::Parse),
            Err(ConfigError::Schema) => match sp_config(spec_split_nl(text@)) {
                Ok(cv) => !crate::config::spec_valid_config(cv),
                Err(e) => e == ConfigError::Schema,
            },
        },
{
    let lines = split_lines(text);
    match parse_lines(&lines) {
        Err(e) => Err(e),
        Ok(c) => match c.validate() {
            Ok(()) => Ok(c),
            Err(e) => Err(e),
        },
    }
}

impl crate::state::AppState {
    /// Re-read the document from `text` and atomically replace the three
    /// cells. A reload that fails, for parse or for schema, leaves every
    /// cell exactly as it was; the cached listener ports never change.
    pub fn reload_config(&mut self, text: &str) -> (r: Result<Config, ConfigError>)
        requires
            old(self).wf(),
        ensures
            final(self).wf(),
            final(self).port == old(self).port,
            final(self).proxy_port == old(self).proxy_port,
            match r {
                Ok(c) => sp_config(spec_split_nl(text@)) == Ok::<ConfigV, ConfigError>(c@)
                    && crate::config::spec_valid_config(c@) && final(self)@.config == c@,
                Err(e) => final(self)@ == old(self)@ && match sp_config(spec_split_nl(text@)) {
                    Ok(cv) => e == ConfigError::Schema && !crate::config::spec_valid_config(cv),
                    Err(k) => e == k,
                },
            },
    {
        match parse_config(text) {
            Err(e) => Err(e),
            Ok(c) => {
                let copy = c.clone();
                match self.apply_config(c) {
                    Ok(()) => Ok(copy),
                    Err(e) => Err(e),
                }
            },
        }
    }
}

// ---------------------------------------------------------------------
// The round trip
// ---------------------------------------------------------------------

/// Text that fits on one line of the written form.
pub open spec fn wf_text(s: Seq<char>) -> bool {
    !s.contains('\n')
}

/// Every entry fits on one line of the written form.
pub open spec fn wf_texts(es: Seq<Seq<char>>) -> bool {
    forall|k: int| 0 <= k < es.len() ==> wf_text(#[trigger] es[k])
}

pub open spec fn wf_hc_text(h: HealthCheckConfigV) -> bool {
    wf_text(h.path)
}

pub open spec fn wf_service_text(s: ServiceV) -> bool {
    &&& wf_text(s.name)
    &&& wf_text(s.host)
    &&& match s.health_check {
        Some(h) => wf_hc_text(h),
        None => true,
    }
}

pub open spec fn wf_route_text(r: RouteV) -> bool {
    &&& wf_text(r.domain)
    &&& match r.target {
        RouteTargetV::Service { service } => wf_text(service),
        RouteTargetV::Static { root, index, try_files } => {
            &&& wf_text(root)
            &&& wf_texts(index)
            &&& wf_texts(try_files)
        },
    }
}

/// No text field of `c` carries a newline, so every value survives the
/// written form unchanged.
pub open spec fn spec_wf_config_text(c: ConfigV) -> bool {
    &&& wf_hc_text(c.health_check)
    &&& forall|k: int| 0 <= k < c.services.len() ==> wf_service_text(#[trigger] c.services[k])
    &&& forall|k: int| 0 <= k < c.routes.len() ==> wf_route_text(#[trigger] c.routes[k])
}

proof fn lemma_concat_clean(a: Seq<char>, b: Seq<char>)
    requires
        !a.contains('\n'),
        !b.contains('\n'),
    ensures
        !(a + b).contains('\n'),
{
    if (a + b).contains('\n') {
        let w = choose|j: int| 0 <= j < (a + b).len() && (a + b)[j] == '\n';
        if w < a.len() {
            assert(a[w] == '\n');
        } else {
            assert(b[w - a.len()] == '\n');
        }
    }
}

proof fn lemma_dec_clean(n: nat)
    ensures
        !spec_dec(n).contains('\n'),
{
    crate::digits::lemma_dec_no_char(n, '\n');
}

/// A line that is a known prefix followed by a value parses back to that
/// value.
proof fn lemma_prefix_value(p: Seq<char>, v: Seq<char>)
    ensures
        spec_starts_with(p + v, p),
        spec_rest(p + v, p) == v,
{
    assert((p + v).subrange(0, p.len() as int) =~= p);
    assert((p + v).subrange(p.len() as int, (p + v).len() as int) =~= v);
}

/// A line made of `a` then `v` cannot begin with `p` when `a` and `p`
/// differ at a position inside `a`.
proof fn lemma_lit_mismatch(a: Seq<char>, v: Seq<char>, p: Seq<char>, k: int)
    requires
        0 <= k < a.len(),
        k < p.len(),
        a[k] != p[k],
    ensures
        !spec_starts_with(a + v, p),
{
    if (a + v).len() >= p.len() {
        assert((a + v).subrange(0, p.len() as int)[k] == (a + v)[k]);
        assert((a + v)[k] == a[k]);
    }
}

/// A whole line shorter than `p` cannot begin with `p`.
proof fn lemma_short_mismatch(l: Seq<char>, p: Seq<char>)
    requires
        l.len() < p.len(),
    ensures
        !spec_starts_with(l, p),
{
}

proof fn lemma_parse_dec(n: nat)
    requires
        n <= u64::MAX,
    ensures
        spec_parse_u64(spec_dec(n)) == Some(n),
{
    crate::digits::lemma_dec_digits(n);
    crate::digits::lemma_dec_round_trip(n);
    let s = spec_dec(n);
    assert(crate::digits::spec_is_digit(s[0]));
    assert(s[0] != '+');
}

/// A numeric field line round trips.
proof fn lemma_rt_num(lines: Seq<Seq<char>>, i: int, p: Seq<char>, n: nat, max: nat)
    requires
        0 <= i < lines.len(),
        lines[i] == p + spec_dec(n),
        n <= max,
        n <= u64::MAX,
    ensures
        sp_num(lines, i, p, max) == Some((n, i + 1)),
{
    lemma_prefix_value(p, spec_dec(n));
    lemma_parse_dec(n);
}

/// A fully written health block parses to exactly its fields.
proof fn lemma_rt_health(
    lines: Seq<Seq<char>>,
    i: int,
    h: HealthCheckConfigV,
    pp: Seq<char>,
    rp: Seq<char>,
    dp: Seq<char>,
)
    requires
        0 <= i,
        i + 3 <= lines.len(),
        lines[i] == pp + h.path,
        lines[i + 1] == rp + spec_dec(h.retry_count as nat),
        lines[i + 2] == dp + spec_dec(h.retry_delay_seconds as nat),
    ensures
        sp_health(lines, i, pp, rp, dp) == Some((h, i + 3)),
{
    lemma_prefix_value(pp, h.path);
    lemma_rt_num(lines, i + 1, rp, h.retry_count as nat, u32::MAX as nat);
    lemma_rt_num(lines, i + 2, dp, h.retry_delay_seconds as nat, u64::MAX as nat);
}

/// A line after a service item opens none of the item's own fields.
pub open spec fn ends_service_item(l: Seq<char>) -> bool {
    &&& !spec_starts_with(l, "    previous_port: "@)
    &&& l != "    health_check:"@
}

proof fn lemma_name_line_ends_item(v: Seq<char>)
    ensures
        ends_service_item("  - name: "@ + v),
        !spec_starts_with("  - name: "@ + v, "    previous_port: "@),
{
    reveal_strlit("  - name: ");
    reveal_strlit("    previous_port: ");
    reveal_strlit("    health_check:");
    lemma_lit_mismatch("  - name: "@, v, "    previous_port: "@, 2);
    let l = "  - name: "@ + v;
    assert(l[2] == '-');
    assert(l != "    health_check:"@) by {
        if l == "    health_check:"@ {
            assert(l[2] == ' ');
        }
    }
}

proof fn lemma_routes_line_ends_item()
    ensures
        ends_service_item("routes:"@),
        !spec_starts_with("routes:"@, "  - name: "@),
{
    reveal_strlit("routes:");
    reveal_strlit("  - name: ");
    reveal_strlit("    previous_port: ");
    reveal_strlit("    health_check:");
    lemma_short_mismatch("routes:"@, "    previous_port: "@);
    lemma_short_mismatch("routes:"@, "  - name: "@);
    assert("routes:"@ != "    health_check:"@) by {
        if "routes:"@ == "    health_check:"@ {
            assert("routes:"@.len() == "    health_check:"@.len());
        }
    }
}

/// One written service item parses back to the service.
proof fn lemma_rt_service(lines: Seq<Seq<char>>, i: int, s: ServiceV)
    requires
        wf_service_text(s),
        0 <= i,
        i + ss_service(s).len() <= lines.len(),
        forall|k: int| 0 <= k < ss_service(s).len() ==> lines[i + k] == #[trigger] ss_service(s)[k],
        i + ss_service(s).len() < lines.len() ==> ends_service_item(
            lines[i + ss_service(s).len()],
        ),
    ensures
        sp_service(lines, i) == Some((s, i + ss_service(s).len())),
{
    reveal_strlit("  - name: ");
    reveal_strlit("    host: ");
    reveal_strlit("    port: ");
    reveal_strlit("    previous_port: ");
    reveal_strlit("    health_check:");
    let sl = ss_service(s);
    assert(sl[0] == "  - name: "@ + s.name);
    assert(sl[1] == "    host: "@ + s.host);
    assert(sl[2] == "    port: "@ + spec_dec(s.port as nat));
    lemma_prefix_value("  - name: "@, s.name);
    lemma_prefix_value("    host: "@, s.host);
    lemma_rt_num(lines, i + 2, "    port: "@, s.port as nat, u16::MAX as nat);
    match s.previous_port {
        Some(p) => {
            assert(sl[3] == "    previous_port: "@ + spec_dec(p as nat));
            lemma_rt_num(lines, i + 3, "    previous_port: "@, p as nat, u16::MAX as nat);
            match s.health_check {
                Some(h) => {
                    assert(sl.len() == 8);
                    assert(sl[4] == "    health_check:"@);
                    assert(sl[5] == "      path: "@ + h.path);
                    assert(sl[6] == "      retry_count: "@ + spec_dec(h.retry_count as nat));
                    assert(sl[7] == "      retry_delay_seconds: "@ + spec_dec(
                        h.retry_delay_seconds as nat,
                    ));
                    lemma_rt_health(
                        lines,
                        i + 5,
                        h,
                        "      path: "@,
                        "      retry_count: "@,
                        "      retry_delay_seconds: "@,
                    );
                },
                None => {
                    assert(sl.len() == 4);
                    if i + 4 < lines.len() {
                        assert(ends_service_item(lines[i + 4]));
                    }
                },
            }
        },
        None => {
            match s.health_check {
                Some(h) => {
                    assert(sl.len() == 7);
                    assert(sl[3] == "    health_check:"@);
                    assert(sl[4] == "      path: "@ + h.path);
                    assert(sl[5] == "      retry_count: "@ + spec_dec(h.retry_count as nat));
                    assert(sl[6] == "      retry_delay_seconds: "@ + spec_dec(
                        h.retry_delay_seconds as nat,
                    ));
                    assert(!spec_starts_with(lines[i + 3], "    previous_port: "@)) by {
                        lemma_short_mismatch("    health_check:"@, "    previous_port: "@);
                    }
                    lemma_rt_health(
                        lines,
                        i + 4,
                        h,
                        "      path: "@,
                        "      retry_count: "@,
                        "      retry_delay_seconds: "@,
                    );
                },
                None => {
                    assert(sl.len() == 3);
                    if i + 3 < lines.len() {
                        assert(ends_service_item(lines[i + 3]));
                    }
                },
            }
        },
    }
}

/// The whole written service list parses back to the list, given that the
/// line after it starts no further item and no item field.
proof fn lemma_rt_services(lines: Seq<Seq<char>>, i: int, ss: Seq<ServiceV>)
    requires
        forall|k: int| 0 <= k < ss.len() ==> wf_service_text(#[trigger] ss[k]),
        0 <= i,
        i + ss_services(ss).len() <= lines.len(),
        forall|k: int|
            0 <= k < ss_services(ss).len() ==> lines[i + k] == #[trigger] ss_services(ss)[k],
        i + ss_services(ss).len() < lines.len() ==> (ends_service_item(
            lines[i + ss_services(ss).len()],
        ) && !spec_starts_with(lines[i + ss_services(ss).len()], "  - name: "@)),
    ensures
        sp_services(lines, i) == Some((ss, i + ss_services(ss).len())),
    decreases ss.len(),
{
    reveal_strlit("  - name: ");
    if ss.len() == 0 {
        assert(ss_services(ss).len() == 0);
    } else {
        let s0 = ss[0];
        let item = ss_service(s0);
        let rest_lines = ss_services(ss.drop_first());
        assert(ss_services(ss) == item + rest_lines);
        assert(forall|k: int| 0 <= k < item.len() ==> #[trigger] ss_services(ss)[k] == item[k]);
        assert(forall|k: int|
            0 <= k < rest_lines.len() ==> #[trigger] ss_services(ss)[item.len() + k]
                == rest_lines[k]);
        assert(item[0] == "  - name: "@ + s0.name);
        lemma_prefix_value("  - name: "@, s0.name);
        assert(item.len() >= 3);
        assert forall|k: int| 0 <= k < item.len() implies lines[i + k] == #[trigger] item[k] by {
            assert(ss_services(ss)[k] == item[k]);
        }
        assert forall|k: int|
            0 <= k < rest_lines.len() implies lines[i + item.len() as int + k] == (
        #[trigger] rest_lines[k]) by {
            assert(ss_services(ss)[item.len() as int + k] == rest_lines[k]);
            assert(lines[i + (item.len() as int + k)] == ss_services(ss)[item.len() as int + k]);
        }
        assert(ss_services(ss)[0] == item[0]);
        assert(lines[i + 0] == ss_services(ss)[0]);
        assert(lines[i] == item[0]);
        if ss.len() > 1 {
            let s1 = ss.drop_first()[0];
            assert(rest_lines[0] == ss_service(s1)[0]) by {
                assert(ss_services(ss.drop_first()) == ss_service(s1) + ss_services(
                    ss.drop_first().drop_first(),
                ));
                assert(ss_service(s1).len() >= 3);
            }
            assert(ss_service(s1)[0] == "  - name: "@ + s1.name);
            assert(ss_services(ss)[item.len() as int + 0] == rest_lines[0]);
            assert(lines[i + (item.len() as int + 0)] == ss_services(ss)[item.len() as int + 0]);
            assert(lines[i + item.len()] == "  - name: "@ + s1.name);
            lemma_name_line_ends_item(s1.name);
            lemma_rt_service(lines, i, s0);
        } else {
            assert(rest_lines.len() == 0);
            lemma_rt_service(lines, i, s0);
        }
        let j = i + item.len();
        lemma_rt_services(lines, j, ss.drop_first());
        assert(seq![s0] + ss.drop_first() =~= ss);
    }
}

/// One written entry list parses back to the entries.
proof fn lemma_rt_entries(lines: Seq<Seq<char>>, i: int, es: Seq<Seq<char>>)
    requires
        0 <= i,
        i + es.len() <= lines.len(),
        forall|k: int| 0 <= k < es.len() ==> lines[i + k] == "        - "@ + #[trigger] es[k],
        i + es.len() < lines.len() ==> !spec_starts_with(lines[i + es.len()], "        - "@),
    ensures
        sp_entry_list(lines, i) == (es, i + es.len()),
    decreases es.len(),
{
    if es.len() == 0 {
    } else {
        lemma_prefix_value("        - "@, es[0]);
        lemma_rt_entries(lines, i + 1, es.drop_first());
        assert(seq![es[0]] + es.drop_first() =~= es);
    }
}

proof fn lemma_ss_entries_index(es: Seq<Seq<char>>)
    ensures
        ss_entries(es).len() == es.len(),
        forall|k: int| 0 <= k < es.len() ==> #[trigger] ss_entries(es)[k] == "        - "@ + es[k],
    decreases es.len(),
{
    if es.len() > 0 {
        lemma_ss_entries_index(es.drop_first());
        assert(forall|k: int|
            1 <= k < es.len() ==> #[trigger] ss_entries(es)[k] == ss_entries(es.drop_first())[k
                - 1]);
    }
}

/// A line after a route item opens no further entry and no further item.
pub open spec fn ends_route_item(l: Seq<char>) -> bool {
    &&& !spec_starts_with(l, "        - "@)
    &&& !spec_starts_with(l, "  - domain: "@)
}

proof fn lemma_domain_line_ends_item(v: Seq<char>)
    ensures
        !spec_starts_with("  - domain: "@ + v, "        - "@),
        spec_starts_with("  - domain: "@ + v, "  - domain: "@),
{
    reveal_strlit("  - domain: ");
    reveal_strlit("        - ");
    lemma_lit_mismatch("  - domain: "@, v, "        - "@, 2);
    lemma_prefix_value("  - domain: "@, v);
}

/// One written route item parses back to the route.
proof fn lemma_rt_route(lines: Seq<Seq<char>>, i: int, r: RouteV)
    requires
        wf_route_text(r),
        0 <= i,
        i + ss_route(r).len() <= lines.len(),
        forall|k: int| 0 <= k < ss_route(r).len() ==> lines[i + k] == #[trigger] ss_route(r)[k],
        i + ss_route(r).len() < lines.len() ==> !spec_starts_with(
            lines[i + ss_route(r).len()],
            "        - "@,
        ),
    ensures
        sp_route(lines, i) == Some((r, i + ss_route(r).len())),
{
    reveal_strlit("  - domain: ");
    reveal_strlit("    service: ");
    reveal_strlit("    static:");
    reveal_strlit("      root: ");
    reveal_strlit("      index:");
    reveal_strlit("      try_files:");
    reveal_strlit("        - ");
    let rl = ss_route(r);
    assert(rl[0] == "  - domain: "@ + r.domain);
    lemma_prefix_value("  - domain: "@, r.domain);
    match r.target {
        RouteTargetV::Service { service } => {
            assert(rl.len() == 2);
            assert(rl[1] == "    service: "@ + service);
            lemma_prefix_value("    service: "@, service);
        },
        RouteTargetV::Static { root, index, try_files } => {
            let head = seq!["    static:"@, "      root: "@ + root, "      index:"@];
            assert(rl == seq![rl[0]] + head + ss_entries(index) + seq!["      try_files:"@]
                + ss_entries(try_files));
            lemma_ss_entries_index(index);
            lemma_ss_entries_index(try_files);
            assert(rl.len() == 5 + index.len() + try_files.len());
            assert(rl[1] == "    static:"@);
            assert(rl[2] == "      root: "@ + root);
            assert(rl[3] == "      index:"@);
            assert(forall|k: int|
                0 <= k < index.len() ==> rl[4 + k] == "        - "@ + #[trigger] index[k]);
            assert(rl[4 + index.len() as int] == "      try_files:"@);
            assert(forall|k: int|
                0 <= k < try_files.len() ==> rl[5 + index.len() + k] == "        - "@
                    + #[trigger] try_files[k]);
            assert(!spec_starts_with(lines[i + 1], "    service: "@)) by {
                lemma_short_mismatch("    static:"@, "    service: "@);
            }
            lemma_prefix_value("      root: "@, root);
            assert(!spec_starts_with(lines[i + 4 + index.len()], "        - "@)) by {
                lemma_lit_mismatch(
                    "      try_files:"@,
                    Seq::<char>::empty(),
                    "        - "@,
                    6,
                );
                assert("      try_files:"@ + Seq::<char>::empty() =~= "      try_files:"@);
            }
            lemma_rt_entries(lines, i + 4, index);
            lemma_rt_entries(lines, i + 5 + index.len() as int, try_files);
        },
    }
}

/// The whole written route list parses back to the list.
proof fn lemma_rt_routes(lines: Seq<Seq<char>>, i: int, rs: Seq<RouteV>)
    requires
        forall|k: int| 0 <= k < rs.len() ==> wf_route_text(#[trigger] rs[k]),
        0 <= i,
        i + ss_routes(rs).len() <= lines.len(),
        forall|k: int| 0 <= k < ss_routes(rs).len() ==> lines[i + k] == #[trigger] ss_routes(rs)[k],
        i + ss_routes(rs).len() < lines.len() ==> ends_route_item(lines[i + ss_routes(rs).len()]),
    ensures
        sp_routes(lines, i) == Some((rs, i + ss_routes(rs).len())),
    decreases rs.len(),
{
    reveal_strlit("  - domain: ");
    if rs.len() == 0 {
        assert(ss_routes(rs).len() == 0);
    } else {
        let r0 = rs[0];
        let item = ss_route(r0);
        let rest_lines = ss_routes(rs.drop_first());
        assert(ss_routes(rs) == item + rest_lines);
        assert(forall|k: int| 0 <= k < item.len() ==> #[trigger] ss_routes(rs)[k] == item[k]);
        assert(forall|k: int|
            0 <= k < rest_lines.len() ==> #[trigger] ss_routes(rs)[item.len() + k]
                == rest_lines[k]);
        assert(item[0] == "  - domain: "@ + r0.domain);
        lemma_prefix_value("  - domain: "@, r0.domain);
        assert(item.len() >= 2);
        assert forall|k: int| 0 <= k < item.len() implies lines[i + k] == #[trigger] item[k] by {
            assert(ss_routes(rs)[k] == item[k]);
        }
        assert forall|k: int|
            0 <= k < rest_lines.len() implies lines[i + item.len() as int + k] == (
        #[trigger] rest_lines[k]) by {
            assert(ss_routes(rs)[item.len() as int + k] == rest_lines[k]);
            assert(lines[i + (item.len() as int + k)] == ss_routes(rs)[item.len() as int + k]);
        }
        assert(ss_routes(rs)[0] == item[0]);
        assert(lines[i + 0] == ss_routes(rs)[0]);
        assert(lines[i] == item[0]);
        if rs.len() > 1 {
            let r1 = rs.drop_first()[0];
            assert(rest_lines[0] == ss_route(r1)[0]) by {
                assert(ss_routes(rs.drop_first()) == ss_route(r1) + ss_routes(
                    rs.drop_first().drop_first(),
                ));
                assert(ss_route(r1).len() >= 2);
            }
            assert(ss_route(r1)[0] == "  - domain: "@ + r1.domain);
            assert(ss_routes(rs)[item.len() as int + 0] == rest_lines[0]);
            assert(lines[i + (item.len() as int + 0)] == ss_routes(rs)[item.len() as int + 0]);
            assert(lines[i + item.len()] == "  - domain: "@ + r1.domain);
            lemma_domain_line_ends_item(r1.domain);
            lemma_rt_route(lines, i, r0);
        } else {
            assert(rest_lines.len() == 0);
            lemma_rt_route(lines, i, r0);
        }
        let j = i + item.len();
        lemma_rt_routes(lines, j, rs.drop_first());
        assert(seq![r0] + rs.drop_first() =~= rs);
    }
}

proof fn lemma_hc_lines_clean(
    h: HealthCheckConfigV,
    pp: Seq<char>,
    rp: Seq<char>,
    dp: Seq<char>,
)
    requires
        wf_hc_text(h),
        !pp.contains('\n'),
        !rp.contains('\n'),
        !dp.contains('\n'),
    ensures
        forall|k: int|
            0 <= k < ss_health(h, pp, rp, dp).len() ==> !(#[trigger] ss_health(h, pp, rp, dp)[k]).contains(
                '\n',
            ),
{
    lemma_concat_clean(pp, h.path);
    lemma_dec_clean(h.retry_count as nat);
    lemma_dec_clean(h.retry_delay_seconds as nat);
    lemma_concat_clean(rp, spec_dec(h.retry_count as nat));
    lemma_concat_clean(dp, spec_dec(h.retry_delay_seconds as nat));
}

proof fn lemma_service_lines_clean(s: ServiceV)
    requires
        wf_service_text(s),
    ensures
        forall|k: int|
            0 <= k < ss_service(s).len() ==> !(#[trigger] ss_service(s)[k]).contains('\n'),
{
    reveal_strlit("  - name: ");
    reveal_strlit("    host: ");
    reveal_strlit("    port: ");
    reveal_strlit("    previous_port: ");
    reveal_strlit("    health_check:");
    reveal_strlit("      path: ");
    reveal_strlit("      retry_count: ");
    reveal_strlit("      retry_delay_seconds: ");
    assert(!("  - name: "@).contains('\n'));
    assert(!("    host: "@).contains('\n'));
    assert(!("    port: "@).contains('\n'));
    assert(!("    previous_port: "@).contains('\n'));
    assert(!("    health_check:"@).contains('\n'));
    assert(!("      path: "@).contains('\n'));
    assert(!("      retry_count: "@).contains('\n'));
    assert(!("      retry_delay_seconds: "@).contains('\n'));
    lemma_concat_clean("  - name: "@, s.name);
    lemma_concat_clean("    host: "@, s.host);
    lemma_dec_clean(s.port as nat);
    lemma_concat_clean("    port: "@, spec_dec(s.port as nat));
    match s.previous_port {
        Some(p) => {
            lemma_dec_clean(p as nat);
            lemma_concat_clean("    previous_port: "@, spec_dec(p as nat));
        },
        None => {},
    }
    match s.health_check {
        Some(h) => {
            lemma_hc_lines_clean(
                h,
                "      path: "@,
                "      retry_count: "@,
                "      retry_delay_seconds: "@,
            );
        },
        None => {},
    }
}

proof fn lemma_services_lines_clean(ss: Seq<ServiceV>)
    requires
        forall|k: int| 0 <= k < ss.len() ==> wf_service_text(#[trigger] ss[k]),
    ensures
        forall|k: int|
            0 <= k < ss_services(ss).len() ==> !(#[trigger] ss_services(ss)[k]).contains('\n'),
    decreases ss.len(),
{
    if ss.len() > 0 {
        lemma_service_lines_clean(ss[0]);
        lemma_services_lines_clean(ss.drop_first());
        assert forall|k: int|
            0 <= k < ss_services(ss).len() implies !(#[trigger] ss_services(ss)[k]).contains('\n') by {
            if k < ss_service(ss[0]).len() {
                assert(ss_services(ss)[k] == ss_service(ss[0])[k]);
            } else {
                assert(ss_services(ss)[k] == ss_services(ss.drop_first())[k - ss_service(
                    ss[0],
                ).len()]);
            }
        }
    }
}

proof fn lemma_entries_lines_clean(es: Seq<Seq<char>>)
    requires
        forall|k: int| 0 <= k < es.len() ==> !(#[trigger] es[k]).contains('\n'),
    ensures
        forall|k: int|
            0 <= k < ss_entries(es).len() ==> !(#[trigger] ss_entries(es)[k]).contains('\n'),
    decreases es.len(),
{
    reveal_strlit("        - ");
    if es.len() > 0 {
        assert(!("        - "@).contains('\n'));
        lemma_concat_clean("        - "@, es[0]);
        lemma_entries_lines_clean(es.drop_first());
        assert forall|k: int|
            0 <= k < ss_entries(es).len() implies !(#[trigger] ss_entries(es)[k]).contains('\n') by {
            if k >= 1 {
                assert(ss_entries(es)[k] == ss_entries(es.drop_first())[k - 1]);
            }
        }
    }
}

proof fn lemma_route_lines_clean(r: RouteV)
    requires
        wf_route_text(r),
    ensures
        forall|k: int| 0 <= k < ss_route(r).len() ==> !(#[trigger] ss_route(r)[k]).contains('\n'),
{
    reveal_strlit("  - domain: ");
    reveal_strlit("    service: ");
    reveal_strlit("    static:");
    reveal_strlit("      root: ");
    reveal_strlit("      index:");
    reveal_strlit("      try_files:");
    assert(!("  - domain: "@).contains('\n'));
    assert(!("    service: "@).contains('\n'));
    assert(!("    static:"@).contains('\n'));
    assert(!("      root: "@).contains('\n'));
    assert(!("      index:"@).contains('\n'));
    assert(!("      try_files:"@).contains('\n'));
    lemma_concat_clean("  - domain: "@, r.domain);
    match r.target {
        RouteTargetV::Service { service } => {
            lemma_concat_clean("    service: "@, service);
        },
        RouteTargetV::Static { root, index, try_files } => {
            lemma_concat_clean("      root: "@, root);
            lemma_entries_lines_clean(index);
            lemma_entries_lines_clean(try_files);
            lemma_ss_entries_index(index);
            lemma_ss_entries_index(try_files);
            assert forall|k: int|
                0 <= k < ss_route(r).len() implies !(#[trigger] ss_route(r)[k]).contains('\n') by {
                let rl = ss_route(r);
                if 4 <= k < 4 + index.len() {
                    assert(rl[k] == ss_entries(index)[k - 4]);
                } else if 5 + index.len() <= k {
                    assert(rl[k] == ss_entries(try_files)[k - 5 - index.len()]);
                }
            }
        },
    }
}

proof fn lemma_routes_lines_clean(rs: Seq<RouteV>)
    requires
        forall|k: int| 0 <= k < rs.len() ==> wf_route_text(#[trigger] rs[k]),
    ensures
        forall|k: int|
            0 <= k < ss_routes(rs).len() ==> !(#[trigger] ss_routes(rs)[k]).contains('\n'),
    decreases rs.len(),
{
    if rs.len() > 0 {
        lemma_route_lines_clean(rs[0]);
        lemma_routes_lines_clean(rs.drop_first());
        assert forall|k: int|
            0 <= k < ss_routes(rs).len() implies !(#[trigger] ss_routes(rs)[k]).contains('\n') by {
            if k < ss_route(rs[0]).len() {
                assert(ss_routes(rs)[k] == ss_route(rs[0])[k]);
            } else {
                assert(ss_routes(rs)[k] == ss_routes(rs.drop_first())[k - ss_route(rs[0]).len()]);
            }
        }
    }
}

proof fn lemma_config_lines_clean(c: ConfigV)
    requires
        spec_wf_config_text(c),
    ensures
        forall|k: int| 0 <= k < ss_config(c).len() ==> !(#[trigger] ss_config(c)[k]).contains('\n'),
{
    reveal_strlit("api_port: ");
    reveal_strlit("proxy_port: ");
    reveal_strlit("health_check:");
    reveal_strlit("services:");
    reveal_strlit("routes:");
    reveal_strlit("  path: ");
    reveal_strlit("  retry_count: ");
    reveal_strlit("  retry_delay_seconds: ");
    assert(!("api_port: "@).contains('\n'));
    assert(!("proxy_port: "@).contains('\n'));
    assert(!("health_check:"@).contains('\n'));
    assert(!("services:"@).contains('\n'));
    assert(!("routes:"@).contains('\n'));
    assert(!("  path: "@).contains('\n'));
    assert(!("  retry_count: "@).contains('\n'));
    assert(!("  retry_delay_seconds: "@).contains('\n'));
    lemma_dec_clean(c.api_port as nat);
    lemma_dec_clean(c.proxy_port as nat);
    lemma_concat_clean("api_port: "@, spec_dec(c.api_port as nat));
    lemma_concat_clean("proxy_port: "@, spec_dec(c.proxy_port as nat));
    lemma_hc_lines_clean(c.health_check, "  path: "@, "  retry_count: "@, "  retry_delay_seconds: "@);
    lemma_services_lines_clean(c.services);
    lemma_routes_lines_clean(c.routes);
    let a = seq![
        "api_port: "@ + spec_dec(c.api_port as nat),
        "proxy_port: "@ + spec_dec(c.proxy_port as nat),
        "health_check:"@,
    ];
    let b = ss_health(c.health_check, "  path: "@, "  retry_count: "@, "  retry_delay_seconds: "@);
    let d = ss_services(c.services);
    let f = ss_routes(c.routes);
    assert forall|k: int|
        0 <= k < ss_config(c).len() implies !(#[trigger] ss_config(c)[k]).contains('\n') by {
        if k < 3 {
            assert(ss_config(c)[k] == a[k]);
        } else if k < 6 {
            assert(ss_config(c)[k] == b[k - 3]);
        } else if k == 6 {
            assert(ss_config(c)[k] == "services:"@);
        } else if k < 7 + d.len() {
            assert(ss_config(c)[k] == d[k - 7]);
        } else if k == 7 + d.len() {
            assert(ss_config(c)[k] == "routes:"@);
        } else {
            assert(ss_config(c)[k] == f[k - 8 - d.len()]);
        }
    }
}

/// The round trip: reading back the written form of any document whose
/// text fields are newline-free yields exactly that document.
pub proof fn lemma_config_round_trip(c: ConfigV)
    requires
        spec_wf_config_text(c),
    ensures
        sp_config(spec_split_nl(spec_serialize(c))) == Ok::<ConfigV, ConfigError>(c),
{
    reveal_strlit("api_port: ");
    reveal_strlit("proxy_port: ");
    reveal_strlit("health_check:");
    reveal_strlit("services:");
    reveal_strlit("routes:");
    reveal_strlit("  path: ");
    reveal_strlit("  retry_count: ");
    reveal_strlit("  retry_delay_seconds: ");
    reveal_strlit("  - name: ");
    let lines = ss_config(c);
    lemma_config_lines_clean(c);
    assert(lines.len() >= 1);
    lemma_split_join(lines);
    assert(spec_split_nl(spec_serialize(c)) == lines);

    let a = seq![
        "api_port: "@ + spec_dec(c.api_port as nat),
        "proxy_port: "@ + spec_dec(c.proxy_port as nat),
        "health_check:"@,
    ];
    let hc = c.health_check;
    let b = ss_health(hc, "  path: "@, "  retry_count: "@, "  retry_delay_seconds: "@);
    let d = ss_services(c.services);
    let f = ss_routes(c.routes);
    let sn = d.len() as int;
    let rn = f.len() as int;
    assert(lines.len() == 8 + sn + rn);
    assert(lines[0] == a[0]);
    assert(lines[1] == a[1]);
    assert(lines[2] == a[2]);
    assert(lines[3] == b[0]);
    assert(lines[4] == b[1]);
    assert(lines[5] == b[2]);
    assert(lines[6] == "services:"@);
    assert forall|k: int| 0 <= k < sn implies lines[7 + k] == #[trigger] d[k] by {}
    assert(lines[7 + sn] == "routes:"@);
    assert forall|k: int| 0 <= k < rn implies lines[8 + sn + k] == #[trigger] f[k] by {}

    lemma_rt_num(lines, 0, "api_port: "@, c.api_port as nat, u16::MAX as nat);
    lemma_rt_num(lines, 1, "proxy_port: "@, c.proxy_port as nat, u16::MAX as nat);
    lemma_rt_health(lines, 3, hc, "  path: "@, "  retry_count: "@, "  retry_delay_seconds: "@);
    lemma_routes_line_ends_item();
    lemma_rt_services(lines, 7, c.services);
    lemma_rt_routes(lines, 8 + sn, c.routes);
    assert(!spec_starts_with(lines[6], "  - name: "@)) by {
        lemma_short_mismatch("services:"@, "  - name: "@);
    }
    assert(sp_config(lines) == Ok::<ConfigV, ConfigError>(c));
}

} // verus!
