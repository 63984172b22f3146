//! The persisted instance list as a JSON document.
//!
//! The document is one object holding the ordered list of instances:
//! `{"instances":[{"id":"...","name":"...","cwd":"...","status":"idle"},...]}`.
//! Text fields are escaped with a backslash before `"` and `\`; the status
//! is one of the four lowercase tags. Rendering and parsing are verified
//! against the same grammar, and [`lemma_render_parse_round_trip`] proves
//! that parsing a rendered list returns exactly that list.

use vstd::prelude::*;
use vstd::string::StrSliceExecFns;
use vstd::string::StringExecFns;
use crate::state::Instance;
use crate::state::InstanceModel;
use crate::state::InstanceStatus;
use crate::state::PersistedState;
use crate::state::models;
use crate::strutil::push_char;

verus! {

/// Does `s` start with `p`?
pub open spec fn begins_with(s: Seq<char>, p: Seq<char>) -> bool {
    p.len() <= s.len() && s.subrange(0, p.len() as int) == p
}

/// One field character as it is written: `"` and `\` get a backslash.
pub open spec fn esc_char(c: char) -> Seq<char> {
    if c == '"' || c == '\\' {
        seq!['\\', c]
    } else {
        seq![c]
    }
}

/// A field's text as it is written between its quotes.
pub open spec fn json_escape(s: Seq<char>) -> Seq<char>
    decreases s.len(),
{
    if s.len() == 0 {
        Seq::empty()
    } else {
        esc_char(s[0]) + json_escape(s.skip(1))
    }
}

/// Read an escaped field up to and over its closing quote: the field's
/// text and what follows the quote, or nothing if the input ends first.
pub open spec fn unesc(s: Seq<char>) -> Option<(Seq<char>, Seq<char>)>
    decreases s.len(),
{
    if s.len() == 0 {
        None
    } else if s[0] == '"' {
        Some((Seq::empty(), s.skip(1)))
    } else if s[0] == '\\' {
        if s.len() < 2 {
            None
        } else {
            match unesc(s.skip(2)) {
                Some((c, r)) => Some((seq![s[1]] + c, r)),
                None => None,
            }
        }
    } else {
        match unesc(s.skip(1)) {
            Some((c, r)) => Some((seq![s[0]] + c, r)),
            None => None,
        }
    }
}

pub open spec fn lit_pre() -> Seq<char> {
    "{\"instances\":["@
}

pub open spec fn lit_id() -> Seq<char> {
    "{\"id\":\""@
}

pub open spec fn lit_name() -> Seq<char> {
    ",\"name\":\""@
}

pub open spec fn lit_cwd() -> Seq<char> {
    ",\"cwd\":\""@
}

pub open spec fn lit_status() -> Seq<char> {
    ",\"status\":\""@
}

pub open spec fn lit_close() -> Seq<char> {
    "]}"@
}

/// A status as it is written: its tag, the closing quote and the brace
/// that ends the instance object.
pub open spec fn tag_full(st: InstanceStatus) -> Seq<char> {
    match st {
        InstanceStatus::Idle => "idle\"}"@,
        InstanceStatus::Working => "working\"}"@,
        InstanceStatus::Waiting => "waiting\"}"@,
        InstanceStatus::Error => "error\"}"@,
    }
}

/// One instance as it is written.
pub open spec fn render_inst(v: InstanceModel) -> Seq<char> {
    lit_id() + (json_escape(v.id) + (seq!['"'] + (lit_name() + (json_escape(v.name) + (seq!['"']
        + (lit_cwd() + (json_escape(v.cwd) + (seq!['"'] + (lit_status() + tag_full(v.status))))))))))
}

/// The instances as they are written after the opening bracket, commas
/// between them, closed by `]}`.
pub open spec fn render_items(m: Seq<InstanceModel>) -> Seq<char>
    decreases m.len(),
{
    if m.len() == 0 {
        lit_close()
    } else if m.len() == 1 {
        render_inst(m[0]) + lit_close()
    } else {
        render_inst(m[0]) + (seq![','] + render_items(m.skip(1)))
    }
}

/// The whole document for a list of instance models.
pub open spec fn spec_render_state(m: Seq<InstanceModel>) -> Seq<char> {
    lit_pre() + render_items(m)
}

/// Read a status tag with its `"}` ending.
pub open spec fn spec_parse_tag(t: Seq<char>) -> Option<(InstanceStatus, Seq<char>)> {
    if begins_with(t, tag_full(InstanceStatus::Idle)) {
        Some((InstanceStatus::Idle, t.skip(tag_full(InstanceStatus::Idle).len() as int)))
    } else if begins_with(t, tag_full(InstanceStatus::Working)) {
        Some((InstanceStatus::Working, t.skip(tag_full(InstanceStatus::Working).len() as int)))
    } else if begins_with(t, tag_full(InstanceStatus::Waiting)) {
        Some((InstanceStatus::Waiting, t.skip(tag_full(InstanceStatus::Waiting).len() as int)))
    } else if begins_with(t, tag_full(InstanceStatus::Error)) {
        Some((InstanceStatus::Error, t.skip(tag_full(InstanceStatus::Error).len() as int)))
    } else {
        None
    }
}

/// Read one instance object; what follows it is returned.
pub open spec fn spec_parse_inst(t: Seq<char>) -> Option<(InstanceModel, Seq<char>)> {
    if !begins_with(t, lit_id()) {
        None
    } else {
        match unesc(t.skip(lit_id().len() as int)) {
            None => None,
            Some((id, t2)) => if !begins_with(t2, lit_name()) {
                None
            } else {
                match unesc(t2.skip(lit_name().len() as int)) {
                    None => None,
                    Some((name, t3)) => if !begins_with(t3, lit_cwd()) {
                        None
                    } else {
                        match unesc(t3.skip(lit_cwd().len() as int)) {
                            None => None,
                            Some((cwd, t4)) => if !begins_with(t4, lit_status()) {
                                None
                            } else {
                                match spec_parse_tag(t4.skip(lit_status().len() as int)) {
                                    None => None,
                                    Some((st, t5)) => Some(
                                        (InstanceModel { id, name, cwd, status: st }, t5),
                                    ),
                                }
                            },
                        }
                    },
                }
            },
        }
    }
}

/// Read the instance list up to and over the closing `]}`; the whole rest
/// of the input must be consumed.
pub open spec fn spec_parse_items(t: Seq<char>) -> Option<Seq<InstanceModel>>
    decreases t.len(),
{
    if t == lit_close() {
        Some(Seq::empty())
    } else {
        match spec_parse_inst(t) {
            None => None,
            Some((v, r)) => if r == lit_close() {
                Some(seq![v])
            } else if r.len() > 0 && r[0] == ',' && r.len() < t.len() {
                match spec_parse_items(r.skip(1)) {
                    None => None,
                    Some(rest) => Some(seq![v] + rest),
                }
            } else {
                None
            },
        }
    }
}

/// Read a whole document.
pub open spec fn spec_parse_state(t: Seq<char>) -> Option<Seq<InstanceModel>> {
    if begins_with(t, lit_pre()) {
        spec_parse_items(t.skip(lit_pre().len() as int))
    } else {
        None
    }
}

/// A concatenation starts with its first part, and skipping it leaves the
/// second.
proof fn lemma_strip(p: Seq<char>, x: Seq<char>)
    ensures
        begins_with(p + x, p),
        (p + x).skip(p.len() as int) == x,
{
    assert((p + x).subrange(0, p.len() as int) =~= p);
    assert((p + x).skip(p.len() as int) =~= x);
}

/// Reading back an escaped field over its closing quote returns the field
/// and what followed the quote.
proof fn lemma_unesc_escape(s: Seq<char>, rest: Seq<char>)
    ensures
        unesc(json_escape(s) + (seq!['"'] + rest)) == Some((s, rest)),
    decreases s.len(),
{
    let qt = seq!['"'];
    if s.len() == 0 {
        assert(json_escape(s) + (qt + rest) =~= qt + rest);
        assert((qt + rest)[0] == '"');
        assert((qt + rest).skip(1) =~= rest);
    } else {
        let c = s[0];
        let tail = json_escape(s.skip(1)) + (qt + rest);
        lemma_unesc_escape(s.skip(1), rest);
        if c == '"' || c == '\\' {
            let input = json_escape(s) + (qt + rest);
            assert(input =~= seq!['\\', c] + tail);
            assert(input[0] == '\\');
            assert(input[1] == c);
            assert(input.len() >= 2);
            assert(input.skip(2) =~= tail);
            assert(unesc(input) == Some((seq![c] + s.skip(1), rest)));
            assert(seq![c] + s.skip(1) =~= s);
        } else {
            let input = json_escape(s) + (qt + rest);
            assert(input =~= seq![c] + tail);
            assert(input[0] == c);
            assert(input.skip(1) =~= tail);
            assert(unesc(input) == Some((seq![c] + s.skip(1), rest)));
            assert(seq![c] + s.skip(1) =~= s);
        }
    }
}

/// Reading back a written status tag returns that status and what followed.
proof fn lemma_parse_tag(st: InstanceStatus, rest: Seq<char>)
    ensures
        spec_parse_tag(tag_full(st) + rest) == Some((st, rest)),
{
    reveal_strlit("idle\"}");
    reveal_strlit("working\"}");
    reveal_strlit("waiting\"}");
    reveal_strlit("error\"}");
    let t = tag_full(st) + rest;
    lemma_strip(tag_full(st), rest);
    match st {
        InstanceStatus::Idle => {
        },
        InstanceStatus::Working => {
            assert(t[0] == 'w' && "idle\"}"@[0] == 'i');
            assert(!begins_with(t, tag_full(InstanceStatus::Idle)));
        },
        InstanceStatus::Waiting => {
            assert(t[0] == 'w' && "idle\"}"@[0] == 'i');
            assert(!begins_with(t, tag_full(InstanceStatus::Idle)));
            assert(t[1] == 'a' && "working\"}"@[1] == 'o');
            assert(!begins_with(t, tag_full(InstanceStatus::Working)));
        },
        InstanceStatus::Error => {
            assert(t[0] == 'e' && "idle\"}"@[0] == 'i');
            assert(!begins_with(t, tag_full(InstanceStatus::Idle)));
            assert("working\"}"@[0] == 'w' && "waiting\"}"@[0] == 'w');
            assert(!begins_with(t, tag_full(InstanceStatus::Working)));
            assert(!begins_with(t, tag_full(InstanceStatus::Waiting)));
        },
    }
}

/// Reading back a written instance returns that instance and what followed.
proof fn lemma_parse_inst(v: InstanceModel, rest: Seq<char>)
    ensures
        spec_parse_inst(render_inst(v) + rest) == Some((v, rest)),
        render_inst(v).len() > 0,
{
    reveal_strlit("{\"id\":\"");
    let qt = seq!['"'];
    let x1 = json_escape(v.id) + (qt + (lit_name() + (json_escape(v.name) + (qt + (lit_cwd() + (
    json_escape(v.cwd) + (qt + (lit_status() + tag_full(v.status)))))))));
    let t = render_inst(v) + rest;
    assert(t =~= lit_id() + (x1 + rest));
    lemma_strip(lit_id(), x1 + rest);
    assert(begins_with(t, lit_id()));
    assert(t.skip(lit_id().len() as int) == x1 + rest);

    let y1 = lit_name() + (json_escape(v.name) + (qt + (lit_cwd() + (json_escape(v.cwd) + (qt + (
    lit_status() + tag_full(v.status)))))));
    assert(x1 + rest =~= json_escape(v.id) + (qt + (y1 + rest)));
    lemma_unesc_escape(v.id, y1 + rest);
    assert(unesc(x1 + rest) == Some((v.id, y1 + rest)));

    let x2 = json_escape(v.name) + (qt + (lit_cwd() + (json_escape(v.cwd) + (qt + (lit_status()
        + tag_full(v.status))))));
    assert(y1 + rest =~= lit_name() + (x2 + rest));
    lemma_strip(lit_name(), x2 + rest);

    let y2 = lit_cwd() + (json_escape(v.cwd) + (qt + (lit_status() + tag_full(v.status))));
    assert(x2 + rest =~= json_escape(v.name) + (qt + (y2 + rest)));
    lemma_unesc_escape(v.name, y2 + rest);

    let x3 = json_escape(v.cwd) + (qt + (lit_status() + tag_full(v.status)));
    assert(y2 + rest =~= lit_cwd() + (x3 + rest));
    lemma_strip(lit_cwd(), x3 + rest);

    let y3 = lit_status() + tag_full(v.status);
    assert(x3 + rest =~= json_escape(v.cwd) + (qt + (y3 + rest)));
    lemma_unesc_escape(v.cwd, y3 + rest);

    assert(y3 + rest =~= lit_status() + (tag_full(v.status) + rest));
    lemma_strip(lit_status(), tag_full(v.status) + rest);

    lemma_parse_tag(v.status, rest);
    assert(spec_parse_inst(t) == Some((v, rest)));
}

/// Reading back a written instance list returns exactly that list.
proof fn lemma_parse_items(m: Seq<InstanceModel>)
    ensures
        spec_parse_items(render_items(m)) == Some(m),
    decreases m.len(),
{
    reveal_strlit("]}");
    reveal_strlit("{\"id\":\"");
    if m.len() == 0 {
        assert(render_items(m) == lit_close());
        assert(spec_parse_items(lit_close()) == Some(Seq::<InstanceModel>::empty()));
        assert(m =~= Seq::<InstanceModel>::empty());
    } else if m.len() == 1 {
        let t = render_items(m);
        assert(t == render_inst(m[0]) + lit_close());
        lemma_parse_inst(m[0], lit_close());
        assert(t[0] == lit_id()[0]);
        assert(lit_id()[0] == '{' && lit_close()[0] == ']');
        assert(t != lit_close());
        assert(spec_parse_inst(t) == Some((m[0], lit_close())));
        assert(spec_parse_items(t) == Some(seq![m[0]]));
        assert(seq![m[0]] =~= m);
    } else {
        let t = render_items(m);
        let r = seq![','] + render_items(m.skip(1));
        assert(t == render_inst(m[0]) + r);
        lemma_parse_inst(m[0], r);
        assert(t[0] == lit_id()[0]);
        assert(lit_id()[0] == '{' && lit_close()[0] == ']');
        assert(t != lit_close());
        assert(spec_parse_inst(t) == Some((m[0], r)));
        assert(r[0] == ',');
        assert(r != lit_close());
        assert(render_inst(m[0]).len() > 0);
        assert(r.len() < t.len());
        assert(r.skip(1) =~= render_items(m.skip(1)));
        lemma_parse_items(m.skip(1));
        assert(spec_parse_items(t) == Some(seq![m[0]] + m.skip(1)));
        assert(seq![m[0]] + m.skip(1) =~= m);
    }
}

/// Law: parsing a rendered instance list yields exactly that list — a
/// saved document reloads to the same ordered ids, names, working
/// directories and statuses.
pub proof fn lemma_render_parse_round_trip(m: Seq<InstanceModel>)
    ensures
        spec_parse_state(spec_render_state(m)) == Some(m),
{
    lemma_strip(lit_pre(), render_items(m));
    lemma_parse_items(m);
}

proof fn lemma_json_escape_push(s: Seq<char>, c: char)
    ensures
        json_escape(s.push(c)) == json_escape(s) + esc_char(c),
    decreases s.len(),
{
    if s.len() == 0 {
        assert(s.push(c)[0] == c);
        assert(s.push(c).skip(1) =~= Seq::<char>::empty());
        assert(json_escape(s.push(c)) == esc_char(c) + json_escape(Seq::<char>::empty()));
        assert(esc_char(c) + Seq::<char>::empty() =~= esc_char(c));
        assert(json_escape(s) + esc_char(c) =~= esc_char(c));
    } else {
        assert(s.push(c)[0] == s[0]);
        assert(s.push(c).skip(1) =~= s.skip(1).push(c));
        lemma_json_escape_push(s.skip(1), c);
        assert(json_escape(s.push(c)) == esc_char(s[0]) + (json_escape(s.skip(1)) + esc_char(c)));
        assert(esc_char(s[0]) + (json_escape(s.skip(1)) + esc_char(c)) =~= (esc_char(s[0])
            + json_escape(s.skip(1))) + esc_char(c));
    }
}

/// Append a field's text in its escaped form.
fn push_escaped(out: &mut String, s: &str)
    ensures
        final(out)@ == old(out)@ + json_escape(s@),
{
    let n = s.unicode_len();
    let mut i: usize = 0;
    proof {
        assert(s@.subrange(0, 0) =~= Seq::<char>::empty());
        assert(out@ + json_escape(Seq::<char>::empty()) =~= out@);
    }
    while i < n
        invariant
            n == s@.len(),
            i <= n,
            out@ == old(out)@ + json_escape(s@.subrange(0, i as int)),
        decreases n - i,
    {
        let c = s.get_char(i);
        if c == '"' || c == '\\' {
            push_char(out, '\\');
            push_char(out, c);
        } else {
            push_char(out, c);
        }
        proof {
            assert(s@.subrange(0, i + 1) =~= s@.subrange(0, i as int).push(s@[i as int]));
            lemma_json_escape_push(s@.subrange(0, i as int), s@[i as int]);
            assert(out@ =~= old(out)@ + json_escape(s@.subrange(0, i + 1)));
        }
        i += 1;
    }
    proof {
        assert(s@.subrange(0, n as int) =~= s@);
    }
}

/// Append a status tag with its `"}` ending.
fn push_tag(out: &mut String, st: &InstanceStatus)
    ensures
        final(out)@ == old(out)@ + tag_full(*st),
{
    match st {
        InstanceStatus::Idle => out.append("idle\"}"),
        InstanceStatus::Working => out.append("working\"}"),
        InstanceStatus::Waiting => out.append("waiting\"}"),
        InstanceStatus::Error => out.append("error\"}"),
    }
}

/// Append one instance object.
fn push_inst(out: &mut String, inst: &Instance)
    ensures
        final(out)@ == old(out)@ + render_inst(inst@),
{
    out.append("{\"id\":\"");
    push_escaped(out, inst.id.as_str());
    push_char(out, '"');
    out.append(",\"name\":\"");
    push_escaped(out, inst.name.as_str());
    push_char(out, '"');
    out.append(",\"cwd\":\"");
    push_escaped(out, inst.cwd.as_str());
    push_char(out, '"');
    out.append(",\"status\":\"");
    push_tag(out, &inst.status);
    proof {
        assert(out@ =~= old(out)@ + render_inst(inst@));
    }
}

/// The document text for the first `i` instances, commas between them.
spec fn render_taken(m: Seq<InstanceModel>, i: int) -> Seq<char>
    decreases i,
{
    if i <= 0 {
        Seq::empty()
    } else if i == 1 {
        render_inst(m[0])
    } else {
        render_taken(m, i - 1) + (seq![','] + render_inst(m[i - 1]))
    }
}

proof fn lemma_render_taken(m: Seq<InstanceModel>, i: int)
    requires
        1 <= i <= m.len(),
    ensures
        render_items(m) == render_taken(m, i) + (if i == m.len() {
            lit_close()
        } else {
            seq![','] + render_items(m.skip(i))
        }),
    decreases i,
{
    if i == 1 {
        if m.len() == 1 {
        } else {
            assert(render_items(m) == render_inst(m[0]) + (seq![','] + render_items(m.skip(1))));
        }
    } else {
        lemma_render_taken(m, i - 1);
        let rest = m.skip(i - 1);
        assert(rest.len() == m.len() - i + 1);
        assert(rest[0] == m[i - 1]);
        if i == m.len() {
            assert(rest.len() == 1);
            assert(render_items(rest) == render_inst(m[i - 1]) + lit_close());
            assert(render_taken(m, i - 1) + (seq![','] + (render_inst(m[i - 1]) + lit_close()))
                =~= (render_taken(m, i - 1) + (seq![','] + render_inst(m[i - 1]))) + lit_close());
        } else {
            assert(rest.len() >= 2);
            assert(rest.skip(1) =~= m.skip(i));
            assert(render_items(rest) == render_inst(m[i - 1]) + (seq![','] + render_items(
                m.skip(i),
            )));
            assert(render_taken(m, i - 1) + (seq![','] + (render_inst(m[i - 1]) + (seq![',']
                + render_items(m.skip(i))))) =~= (render_taken(m, i - 1) + (seq![','] + render_inst(
                m[i - 1],
            ))) + (seq![','] + render_items(m.skip(i))));
        }
    }
}

/// Render an instance list as the persisted JSON document.
pub fn render_instances(list: &Vec<Instance>) -> (r: String)
    ensures
        r@ == spec_render_state(models(list@)),
{
    let ghost m = models(list@);
    let mut out = String::from_str("{\"instances\":[");
    let n = list.len();
    proof {
        assert(m.len() == n);
    }
    if n == 0 {
        out.append("]}");
        proof {
            assert(out@ =~= lit_pre() + render_items(m));
        }
        return out;
    }
    let mut i: usize = 0;
    while i < n
        invariant
            n == list@.len(),
            m == models(list@),
            m.len() == n,
            1 <= n,
            i <= n,
            out@ == lit_pre() + render_taken(m, i as int),
        decreases n - i,
    {
        if i > 0 {
            push_char(&mut out, ',');
        }
        push_inst(&mut out, &list[i]);
        proof {
            assert(m[i as int] == list@[i as int]@);
            if i == 0 {
                assert(lit_pre() + Seq::<char>::empty() =~= lit_pre());
                assert(out@ =~= lit_pre() + render_taken(m, 1));
            } else {
                assert(out@ =~= lit_pre() + (render_taken(m, i as int) + (seq![','] + render_inst(
                    m[i as int],
                ))));
            }
        }
        i += 1;
    }
    out.append("]}");
    proof {
        lemma_render_taken(m, n as int);
        assert(out@ =~= lit_pre() + render_items(m));
    }
    out
}

/// If the text at `pos` starts with `lit`, the position just after it.
fn skip_lit(s: &str, pos: usize, lit: &str) -> (r: Option<usize>)
    requires
        pos <= s@.len(),
    ensures
        match r {
            Some(j) => begins_with(s@.skip(pos as int), lit@) && pos <= j <= s@.len() && j as int
                == pos + lit@.len() && s@.skip(pos as int).skip(lit@.len() as int) == s@.skip(
                j as int,
            ),
            None => !begins_with(s@.skip(pos as int), lit@),
        },
{
    let n = s.unicode_len();
    let m = lit.unicode_len();
    if m > n - pos {
        proof {
            assert(s@.skip(pos as int).len() == n - pos);
        }
        return None;
    }
    let mut k: usize = 0;
    while k < m
        invariant
            n == s@.len(),
            m == lit@.len(),
            pos <= n,
            m <= n - pos,
            k <= m,
            forall|j: int| 0 <= j < k ==> s@[pos + j] == lit@[j],
        decreases m - k,
    {
        if s.get_char(pos + k) != lit.get_char(k) {
            proof {
                if begins_with(s@.skip(pos as int), lit@) {
                    assert(s@.skip(pos as int).subrange(0, m as int)[k as int] == s@[pos + k]);
                    assert(false);
                }
            }
            return None;
        }
        k += 1;
    }
    proof {
        assert(s@.skip(pos as int).subrange(0, m as int) =~= lit@);
        assert(s@.skip(pos as int).skip(m as int) =~= s@.skip(pos + m));
    }
    Some(pos + m)
}

/// Is the text at `pos` exactly the closing `]}`?
fn at_close(s: &str, pos: usize) -> (r: bool)
    requires
        pos <= s@.len(),
    ensures
        r == (s@.skip(pos as int) == lit_close()),
{
    proof {
        reveal_strlit("]}");
    }
    let n = s.unicode_len();
    if n - pos != 2 {
        proof {
            if s@.skip(pos as int) == lit_close() {
                assert(s@.skip(pos as int).len() == 2);
                assert(false);
            }
        }
        return false;
    }
    let a = s.get_char(pos);
    let b = s.get_char(pos + 1);
    let r = a == ']' && b == '}';
    proof {
        assert(s@.skip(pos as int)[0] == s@[pos as int]);
        assert(s@.skip(pos as int)[1] == s@[pos + 1]);
        if r {
            assert(s@.skip(pos as int) =~= lit_close());
        } else {
            if s@.skip(pos as int) == lit_close() {
                assert(false);
            }
        }
    }
    r
}

/// Read an escaped field at `pos` up to and over its closing quote.
fn take_string(s: &str, pos: usize) -> (r: Option<(String, usize)>)
    requires
        pos <= s@.len(),
    ensures
        match r {
            Some(p) => pos < p.1 <= s@.len() && unesc(s@.skip(pos as int)) == Some(
                (p.0@, s@.skip(p.1 as int)),
            ),
            None => unesc(s@.skip(pos as int)) is None,
        },
{
    let n = s.unicode_len();
    let mut out = String::new();
    let mut i: usize = pos;
    proof {
        match unesc(s@.skip(pos as int)) {
            Some((c, rest)) => {
                assert(Seq::<char>::empty() + c =~= c);
            },
            None => {},
        }
    }
    loop
        invariant
            pos <= i <= n,
            n == s@.len(),
            (match unesc(s@.skip(i as int)) {
                Some((c, rest)) => unesc(s@.skip(pos as int)) == Some((out@ + c, rest)),
                None => unesc(s@.skip(pos as int)) is None,
            }),
        decreases n - i,
    {
        if i >= n {
            proof {
                assert(s@.skip(i as int).len() == 0);
            }
            return None;
        }
        let c = s.get_char(i);
        proof {
            assert(s@.skip(i as int)[0] == s@[i as int]);
        }
        if c == '"' {
            proof {
                assert(s@.skip(i as int).skip(1) =~= s@.skip(i + 1));
                assert(unesc(s@.skip(i as int)) == Some((Seq::<char>::empty(), s@.skip(i + 1))));
                assert(out@ + Seq::<char>::empty() =~= out@);
            }
            return Some((out, i + 1));
        } else if c == '\\' {
            if i + 1 >= n {
                proof {
                    assert(s@.skip(i as int).len() < 2);
                }
                return None;
            }
            let c2 = s.get_char(i + 1);
            let ghost out0 = out@;
            push_char(&mut out, c2);
            proof {
                assert(s@.skip(i as int)[1] == s@[i + 1]);
                assert(s@.skip(i as int).skip(2) =~= s@.skip(i + 2));
                assert(out@ =~= out0 + seq![c2]);
                match unesc(s@.skip(i + 2)) {
                    Some((cc, rest)) => {
                        assert(unesc(s@.skip(i as int)) == Some((seq![s@[i + 1]] + cc, rest)));
                        assert(out0 + (seq![c2] + cc) =~= out@ + cc);
                    },
                    None => {},
                }
            }
            i += 2;
        } else {
            let ghost out0 = out@;
            push_char(&mut out, c);
            proof {
                assert(s@.skip(i as int).skip(1) =~= s@.skip(i + 1));
                assert(out@ =~= out0 + seq![c]);
                match unesc(s@.skip(i + 1)) {
                    Some((cc, rest)) => {
                        assert(unesc(s@.skip(i as int)) == Some((seq![s@[i as int]] + cc, rest)));
                        assert(out0 + (seq![c] + cc) =~= out@ + cc);
                    },
                    None => {},
                }
            }
            i += 1;
        }
    }
}

/// Read a status tag with its `"}` ending at `pos`.
fn read_tag(s: &str, pos: usize) -> (r: Option<(InstanceStatus, usize)>)
    requires
        pos <= s@.len(),
    ensures
        match r {
            Some(p) => pos < p.1 <= s@.len() && spec_parse_tag(s@.skip(pos as int)) == Some(
                (p.0, s@.skip(p.1 as int)),
            ),
            None => spec_parse_tag(s@.skip(pos as int)) is None,
        },
{
    proof {
        reveal_strlit("idle\"}");
        reveal_strlit("working\"}");
        reveal_strlit("waiting\"}");
        reveal_strlit("error\"}");
    }
    if let Some(j) = skip_lit(s, pos, "idle\"}") {
        return Some((InstanceStatus::Idle, j));
    }
    if let Some(j) = skip_lit(s, pos, "working\"}") {
        return Some((InstanceStatus::Working, j));
    }
    if let Some(j) = skip_lit(s, pos, "waiting\"}") {
        return Some((InstanceStatus::Waiting, j));
    }
    if let Some(j) = skip_lit(s, pos, "error\"}") {
        return Some((InstanceStatus::Error, j));
    }
    None
}

/// Read one instance object at `pos`.
fn parse_inst_at(s: &str, pos: usize) -> (r: Option<(Instance, usize)>)
    requires
        pos <= s@.len(),
    ensures
        match r {
            Some(p) => pos < p.1 <= s@.len() && spec_parse_inst(s@.skip(pos as int)) == Some(
                (p.0@, s@.skip(p.1 as int)),
            ),
            None => spec_parse_inst(s@.skip(pos as int)) is None,
        },
{
    proof {
        reveal_strlit("{\"id\":\"");
    }
    let p1 = match skip_lit(s, pos, "{\"id\":\"") {
        None => {
            return None;
        },
        Some(j) => j,
    };
    let (id, p2) = match take_string(s, p1) {
        None => {
            return None;
        },
        Some(x) => x,
    };
    let p3 = match skip_lit(s, p2, ",\"name\":\"") {
        None => {
            return None;
        },
        Some(j) => j,
    };
    let (name, p4) = match take_string(s, p3) {
        None => {
            return None;
        },
        Some(x) => x,
    };
    let p5 = match skip_lit(s, p4, ",\"cwd\":\"") {
        None => {
            return None;
        },
        Some(j) => j,
    };
    let (cwd, p6) = match take_string(s, p5) {
        None => {
            return None;
        },
        Some(x) => x,
    };
    let p7 = match skip_lit(s, p6, ",\"status\":\"") {
        None => {
            return None;
        },
        Some(j) => j,
    };
    let (status, p8) = match read_tag(s, p7) {
        None => {
            return None;
        },
        Some(x) => x,
    };
    Some((Instance { id, name, cwd, status }, p8))
}

/// Read the instance list at `pos`, consuming the input to its end.
fn parse_items_at(s: &str, pos: usize) -> (r: Option<Vec<Instance>>)
    requires
        pos <= s@.len(),
    ensures
        match r {
            Some(l) => spec_parse_items(s@.skip(pos as int)) == Some(models(l@)),
            None => spec_parse_items(s@.skip(pos as int)) is None,
        },
    decreases s@.len() - pos,
{
    let ghost t = s@.skip(pos as int);
    if at_close(s, pos) {
        let l = Vec::<Instance>::new();
        proof {
            assert(models(l@) =~= Seq::<InstanceModel>::empty());
        }
        return Some(l);
    }
    let (inst, j) = match parse_inst_at(s, pos) {
        None => {
            return None;
        },
        Some(x) => x,
    };
    if at_close(s, j) {
        let mut l = Vec::<Instance>::new();
        l.push(inst);
        proof {
            assert(models(l@) =~= seq![inst@]);
        }
        return Some(l);
    }
    let n = s.unicode_len();
    if j < n {
        let c = s.get_char(j);
        proof {
            assert(s@.skip(j as int)[0] == s@[j as int]);
        }
        if c == ',' {
            proof {
                assert(s@.skip(j as int).skip(1) =~= s@.skip(j + 1));
            }
            match parse_items_at(s, j + 1) {
                None => {
                    return None;
                },
                Some(l2) => {
                    let ghost m2 = models(l2@);
                    let mut l2 = l2;
                    l2.insert(0, inst);
                    proof {
                        assert(models(l2@) =~= seq![inst@] + m2);
                    }
                    return Some(l2);
                },
            }
        } else {
            return None;
        }
    }
    proof {
        assert(s@.skip(j as int).len() == 0);
    }
    None
}

/// Parse a whole persisted document; the instances in order, or nothing if
/// the text is not a document this module writes.
pub fn parse_instances(s: &str) -> (r: Option<Vec<Instance>>)
    ensures
        r matches Some(l) ==> spec_parse_state(s@) == Some(models(l@)),
        r is None ==> spec_parse_state(s@) is None,
{
    proof {
        assert(s@.skip(0) =~= s@);
    }
    match skip_lit(s, 0, "{\"instances\":[") {
        None => None,
        Some(j) => parse_items_at(s, j),
    }
}

impl PersistedState {
    /// Render this state as the persisted JSON document.
    pub fn to_json(&self) -> (r: String)
        ensures
            r@ == spec_render_state(self@),
    {
        render_instances(&self.instances)
    }

    /// Parse a persisted JSON document back into a state.
    pub fn from_json(s: &str) -> (r: Option<PersistedState>)
        ensures
            r matches Some(ps) ==> spec_parse_state(s@) == Some(ps@),
            r is None ==> spec_parse_state(s@) is None,
    {
        match parse_instances(s) {
            Some(l) => Some(PersistedState { instances: l }),
            None => None,
        }
    }
}

}
