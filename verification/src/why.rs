//! Why a process runs: what is printed about its owner.

use crate::cli;
use crate::cli::{ancestry_line, sign};
use crate::model::process::ProcessInfo;
use crate::model::session::SessionRecord;
use crate::replies;
use crate::server::{session_state, Located};
use crate::source;
use crate::source::SourceReport;
use crate::text;
use crate::text::dec_of;
use vstd::prelude::*;

verus! {

/// One session that was considered as the owner of a resource, as recorded.
#[derive(Debug, Clone)]
pub struct CandidateRecord {
    pub session: String,
    pub anchor_kind: String,
    pub anchor_score: u8,
    pub project_support: u8,
    pub temporal_support: u8,
    pub relationship_support: u8,
    pub total: u8,
    pub rejected: bool,
    /// What was seen, and where.
    pub evidence: Vec<(String, String)>,
}

/// A decision on the owner of a resource, as recorded.
#[derive(Debug, Clone)]
pub struct DecisionRecord {
    pub verdict: String,
    pub resolver_version: u32,
    pub winner: Option<String>,
    pub candidates: Vec<CandidateRecord>,
}

// ---------------------------------------------------------------------------
// What is printed
// ---------------------------------------------------------------------------

/// A part of a score: nothing where it is zero.
pub open spec fn signed_part(v: u8) -> Seq<char> {
    if v == 0 {
        Seq::empty()
    } else {
        " +"@ + text::dec(v as nat)
    }
}

/// How the score of a candidate comes about.
pub open spec fn candidate_line(c: CandidateRecord) -> Seq<char> {
    "  candidate "@ + c.session@ + ": anchor "@ + c.anchor_kind@ + " "@ + text::dec(
        c.anchor_score as nat,
    ) + signed_part(c.project_support) + signed_part(c.temporal_support) + signed_part(
        c.relationship_support,
    ) + " = "@ + text::dec(c.total as nat)
}

pub open spec fn evidence_line(e: (String, String)) -> Seq<char> {
    "    evidence: "@ + e.0@ + " ("@ + e.1@ + ")"@
}

pub open spec fn evidence_lines(es: Seq<(String, String)>) -> Seq<Seq<char>> {
    Seq::new(es.len(), |i: int| evidence_line(es[i]))
}

/// A candidate with its evidence; nothing of a rejected one.
pub open spec fn candidate_lines(c: CandidateRecord) -> Seq<Seq<char>> {
    if c.rejected {
        Seq::empty()
    } else {
        seq![candidate_line(c)] + evidence_lines(c.evidence@)
    }
}

pub open spec fn all_candidate_lines(cs: Seq<CandidateRecord>) -> Seq<Seq<char>>
    decreases cs.len(),
{
    if cs.len() == 0 {
        Seq::empty()
    } else {
        all_candidate_lines(cs.drop_last()) + candidate_lines(cs.last())
    }
}

pub open spec fn decision_lines(d: DecisionRecord) -> Seq<Seq<char>> {
    seq![
        "attribution:    "@ + d.verdict@ + " (resolver v"@ + text::dec(d.resolver_version as nat)
            + ")"@,
    ] + (match d.winner {
        Some(w) => seq!["winner:         session "@ + w@],
        None => Seq::empty(),
    }) + all_candidate_lines(d.candidates@)
}

/// The session that a process comes from, and how that was decided.
pub open spec fn owner_text(s: SessionRecord, d: Option<DecisionRecord>) -> Seq<Seq<char>> {
    seq!["origin session: "@ + s.agent@ + " "@ + text::hex_fixed(s.id@ as nat, 16)] + (match s.project {
        Some(p) => seq!["project:        "@ + p@],
        None => Seq::empty(),
    }) + seq![
        match s.ended_at {
            Some(e) => "session:        ended at "@ + text::dec(e as nat),
            None => "session:        active (since "@ + text::dec(s.started_at as nat) + ")"@,
        },
    ] + (match d {
        Some(d) => decision_lines(d),
        None => Seq::empty(),
    })
}

// ---------------------------------------------------------------------------
// Printing
// ---------------------------------------------------------------------------

fn add_line(lines: &mut Vec<String>, line: String)
    ensures
        text::texts(final(lines)@) == text::texts(old(lines)@).push(line@),
{
    let ghost before = text::texts(lines@);
    let ghost l = line@;
    lines.push(line);
    assert(text::texts(lines@) =~= before.push(l));
}

fn add_candidate(lines: &mut Vec<String>, c: &CandidateRecord)
    ensures
        text::texts(final(lines)@) == text::texts(old(lines)@) + candidate_lines(*c),
{
    let ghost before = text::texts(lines@);
    if c.rejected {
        assert(before + candidate_lines(*c) =~= before);
        return ;
    }
    let line: String = "  candidate ".to_owned().concat(c.session.as_str()).concat(
        ": anchor ",
    ).concat(c.anchor_kind.as_str()).concat(" ").concat(dec_of(c.anchor_score as u64).as_str()).concat(
        sign(c.project_support).as_str(),
    ).concat(sign(c.temporal_support).as_str()).concat(sign(c.relationship_support).as_str()).concat(
        " = ",
    ).concat(dec_of(c.total as u64).as_str());
    add_line(lines, line);
    let ghost head = text::texts(lines@);
    assert(head =~= before + seq![candidate_line(*c)]);
    let ghost all = evidence_lines(c.evidence@);
    let mut i: usize = 0;
    assert(head + all.take(0) =~= head);
    while i < c.evidence.len()
        invariant
            i <= c.evidence.len(),
            all == evidence_lines(c.evidence@),
            text::texts(lines@) == head + all.take(i as int),
        decreases c.evidence.len() - i,
    {
        let e: &(String, String) = &c.evidence[i];
        add_line(
            lines,
            "    evidence: ".to_owned().concat(e.0.as_str()).concat(" (").concat(
                e.1.as_str(),
            ).concat(")"),
        );
        assert(head + all.take(i + 1) =~= (head + all.take(i as int)).push(all[i as int]));
        i += 1;
    }
    assert(all.take(all.len() as int) =~= all);
    assert(head + all =~= before + candidate_lines(*c));
}

fn add_decision(lines: &mut Vec<String>, d: &DecisionRecord)
    ensures
        text::texts(final(lines)@) == text::texts(old(lines)@) + decision_lines(*d),
{
    let ghost before = text::texts(lines@);
    add_line(
        lines,
        "attribution:    ".to_owned().concat(d.verdict.as_str()).concat(" (resolver v").concat(
            dec_of(d.resolver_version as u64).as_str(),
        ).concat(")"),
    );
    if let Some(w) = &d.winner {
        add_line(lines, "winner:         session ".to_owned().concat(w.as_str()));
    }
    let ghost head = text::texts(lines@);
    let mut i: usize = 0;
    assert(d.candidates@.take(0) =~= Seq::<CandidateRecord>::empty());
    assert(head + all_candidate_lines(d.candidates@.take(0)) =~= head);
    while i < d.candidates.len()
        invariant
            i <= d.candidates.len(),
            text::texts(lines@) == head + all_candidate_lines(d.candidates@.take(i as int)),
        decreases d.candidates.len() - i,
    {
        let ghost so_far = text::texts(lines@);
        add_candidate(lines, &d.candidates[i]);
        let ghost next = d.candidates@.take(i + 1);
        assert(next.drop_last() =~= d.candidates@.take(i as int));
        assert(next.last() == d.candidates@[i as int]);
        assert(text::texts(lines@) =~= head + all_candidate_lines(next));
        i += 1;
    }
    assert(d.candidates@.take(d.candidates@.len() as int) =~= d.candidates@);
    assert(text::texts(lines@) =~= before + decision_lines(*d));
}

/// What is printed about the session that a process comes from.
pub fn owner_lines(s: &SessionRecord, d: &Option<DecisionRecord>) -> (r: Vec<String>)
    ensures
        text::texts(r@) == owner_text(*s, *d),
{
    let mut r: Vec<String> = Vec::new();
    assert(text::texts(r@) =~= Seq::<Seq<char>>::empty());
    add_line(
        &mut r,
        "origin session: ".to_owned().concat(s.agent.as_str()).concat(" ").concat(
            s.id.to_text().as_str(),
        ),
    );
    if let Some(p) = &s.project {
        add_line(&mut r, "project:        ".to_owned().concat(p.as_str()));
    }
    add_line(
        &mut r,
        match s.ended_at {
            Some(e) => "session:        ended at ".to_owned().concat(dec_of(e).as_str()),
            None => "session:        active (since ".to_owned().concat(
                dec_of(s.started_at).as_str(),
            ).concat(")"),
        },
    );
    if let Some(d) = d {
        add_decision(&mut r, d);
    }
    assert(text::texts(r@) =~= owner_text(*s, *d));
    r
}

/// What is printed about a process that is itself the root of a session.
pub fn root_line(s: &SessionRecord) -> (r: String)
    ensures
        r@ == "session root of: "@ + s.agent@ + " "@ + text::hex_fixed(s.id@ as nat, 16) + " ("@
            + replies::state_text(s.ended_at) + " since "@ + text::dec(s.started_at as nat) + ")"@,
{
    "session root of: ".to_owned().concat(s.agent.as_str()).concat(" ").concat(
        s.id.to_text().as_str(),
    ).concat(" (").concat(session_state(s.ended_at)).concat(" since ").concat(
        dec_of(s.started_at).as_str(),
    ).concat(")")
}

/// What is printed about a process without a recorded owner: where it was
/// started from.
pub fn source_lines(report: &SourceReport, target: &ProcessInfo) -> (r: Vec<String>)
    ensures
        text::texts(r@) == seq![
            "no recorded owner"@,
            "source:   "@ + report.source@.label(),
            "ancestry: "@ + text::joined(
                cli::named_processes(source::listed(report.chain@)).push(
                    cli::named_process(*target),
                ),
                " → "@,
            ),
        ],
{
    let mut r: Vec<String> = Vec::new();
    assert(text::texts(r@) =~= Seq::<Seq<char>>::empty());
    add_line(&mut r, "no recorded owner".to_owned());
    add_line(&mut r, "source:   ".to_owned().concat(report.source.label().as_str()));
    add_line(&mut r, ancestry_line(&report.chain, target));
    r
}

/// Why nothing can be said about a process: it is gone, or it has no stable
/// identity. The exit status is 2 then.
pub fn unexplained(pid: u32, found: &Located) -> (r: Option<String>)
    ensures
        match *found {
            Located::NotRunning => r matches Some(s) && s@ == "pid "@ + text::dec(pid as nat)
                + " is not running"@,
            Located::NoIdentity => r matches Some(s) && s@ == "pid "@ + text::dec(pid as nat)
                + " has no stable identity (start_time unavailable)"@,
            Located::Found { .. } => r is None,
        },
{
    match found {
        Located::NotRunning => Some(
            "pid ".to_owned().concat(dec_of(pid as u64).as_str()).concat(" is not running"),
        ),
        Located::NoIdentity => Some(
            "pid ".to_owned().concat(dec_of(pid as u64).as_str()).concat(
                " has no stable identity (start_time unavailable)",
            ),
        ),
        Located::Found { .. } => None,
    }
}

// ---------------------------------------------------------------------------
// Laws
// ---------------------------------------------------------------------------

/// A rejected candidate is not printed: a decision reads the same without it.
pub proof fn rejected_candidates_are_left_out(
    before: Seq<CandidateRecord>,
    c: CandidateRecord,
    after: Seq<CandidateRecord>,
)
    requires
        c.rejected,
    ensures
        all_candidate_lines(before.push(c) + after) == all_candidate_lines(before + after),
    decreases after.len(),
{
    let with = before.push(c) + after;
    let without = before + after;
    if after.len() == 0 {
        assert(with =~= before.push(c));
        assert(without =~= before);
        assert(before.push(c).drop_last() =~= before);
        assert(all_candidate_lines(before) + Seq::<Seq<char>>::empty() =~= all_candidate_lines(
            before,
        ));
    } else {
        rejected_candidates_are_left_out(before, c, after.drop_last());
        assert(with.drop_last() =~= before.push(c) + after.drop_last());
        assert(without.drop_last() =~= before + after.drop_last());
        assert(with.last() == without.last());
    }
}

/// Every other candidate is printed on a line of its own, with its evidence
/// behind it, one line for each piece.
pub proof fn every_other_candidate_is_printed(cs: Seq<CandidateRecord>, i: int)
    requires
        0 <= i < cs.len(),
        !cs[i].rejected,
    ensures
        exists|n: int|
            {
                &&& 0 <= n
                &&& n + cs[i].evidence@.len() < all_candidate_lines(cs).len()
                &&& #[trigger] all_candidate_lines(cs)[n] == candidate_line(cs[i])
                &&& forall|k: int|
                    0 <= k < cs[i].evidence@.len() ==> #[trigger] all_candidate_lines(cs)[n + 1 + k]
                        == "    evidence: "@ + cs[i].evidence@[k].0@ + " ("@ + cs[i].evidence@[k].1@
                        + ")"@
            },
    decreases cs.len(),
{
    let front = cs.drop_last();
    let a = all_candidate_lines(front);
    let all = all_candidate_lines(cs);
    if i < front.len() {
        assert(front[i] == cs[i]);
        every_other_candidate_is_printed(front, i);
        let n = choose|n: int|
            {
                &&& 0 <= n
                &&& n + cs[i].evidence@.len() < a.len()
                &&& #[trigger] a[n] == candidate_line(cs[i])
                &&& forall|k: int|
                    0 <= k < cs[i].evidence@.len() ==> #[trigger] a[n + 1 + k] == "    evidence: "@
                        + cs[i].evidence@[k].0@ + " ("@ + cs[i].evidence@[k].1@ + ")"@
            };
        assert(all[n] == a[n]);
        assert forall|k: int| 0 <= k < cs[i].evidence@.len() implies #[trigger] all[n + 1 + k]
            == "    evidence: "@ + cs[i].evidence@[k].0@ + " ("@ + cs[i].evidence@[k].1@ + ")"@ by {
            assert(all[n + 1 + k] == a[n + 1 + k]);
        }
    } else {
        let n = a.len() as int;
        let c = candidate_lines(cs[i]);
        assert(all == a + c);
        assert(all[n] == c[0]);
        assert forall|k: int| 0 <= k < cs[i].evidence@.len() implies #[trigger] all[n + 1 + k]
            == "    evidence: "@ + cs[i].evidence@[k].0@ + " ("@ + cs[i].evidence@[k].1@ + ")"@ by {
            assert(all[n + 1 + k] == c[1 + k]);
        }
    }
}

/// A part that adds nothing is not printed, and any other with its number.
pub proof fn parts_that_add_nothing_are_left_out(c: CandidateRecord)
    requires
        c.temporal_support == 0,
        c.relationship_support == 0,
    ensures
        c.project_support == 0 ==> candidate_line(c) == "  candidate "@ + c.session@ + ": anchor "@
            + c.anchor_kind@ + " "@ + text::dec(c.anchor_score as nat) + " = "@ + text::dec(
            c.total as nat,
        ),
        c.project_support != 0 ==> candidate_line(c) == "  candidate "@ + c.session@ + ": anchor "@
            + c.anchor_kind@ + " "@ + text::dec(c.anchor_score as nat) + (" +"@ + text::dec(
            c.project_support as nat,
        )) + " = "@ + text::dec(c.total as nat),
{
    let head = "  candidate "@ + c.session@ + ": anchor "@ + c.anchor_kind@ + " "@ + text::dec(
        c.anchor_score as nat,
    );
    assert(head + Seq::<char>::empty() =~= head);
    let more = head + signed_part(c.project_support);
    assert(more + Seq::<char>::empty() =~= more);
}

} // verus!
