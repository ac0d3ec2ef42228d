//! The sections of the command catalogue in the right rail.
use vstd::prelude::*;
use crate::num::{decimal, push_decimal};
use crate::state::model::{Command, CommandV};
use crate::text::{chars_of, push_char, trim, trimmed};

verus! {

/// A section of the catalogue.
#[derive(Debug, Clone, Copy, PartialEq, Eq, Structural)]
pub enum Section {
    Pinned,
    Recent,
}

impl Section {
    /// Whether the command belongs in the section: PINNED holds the pinned
    /// ones, RECENT those not pinned that have run.
    pub open spec fn holds(self, c: CommandV) -> bool {
        match self {
            Section::Pinned => c.pinned,
            Section::Recent => !c.pinned && c.last_used is Some,
        }
    }

    /// Whether the command belongs in the section.
    pub fn contains(self, c: &Command) -> (r: bool)
        ensures
            r == self.holds(c@),
    {
        match self {
            Section::Pinned => c.pinned,
            Section::Recent => !c.pinned && c.last_used.is_some(),
        }
    }
}

/// How long ago, compactly: "now", "5m", "2h", "3d".
pub open spec fn relative_spec(last_used: u64, now_secs: u64) -> Seq<char> {
    let ago: int = if now_secs >= last_used {
        now_secs - last_used
    } else {
        0
    };
    if ago < 60 {
        "now"@
    } else if ago < 3600 {
        decimal((ago / 60) as nat).push('m')
    } else if ago < 86400 {
        decimal((ago / 3600) as nat).push('h')
    } else {
        decimal((ago / 86400) as nat).push('d')
    }
}

/// How long before `now_secs` the time `last_used` was: "now" within a
/// minute, then whole minutes, hours or days.
pub fn relative_time(last_used: u64, now_secs: u64) -> (r: String)
    ensures
        r@ == relative_spec(last_used, now_secs),
{
    let ago = now_secs.saturating_sub(last_used);
    if ago < 60 {
        return "now".to_owned();
    }
    let mut s = String::new();
    if ago < 3600 {
        push_decimal(&mut s, ago / 60);
        push_char(&mut s, 'm');
    } else if ago < 86400 {
        push_decimal(&mut s, ago / 3600);
        push_char(&mut s, 'h');
    } else {
        push_decimal(&mut s, ago / 86400);
        push_char(&mut s, 'd');
    }
    assert(s@ =~= relative_spec(last_used, now_secs));
    s
}

/// A character with ASCII letters folded to lower case.
pub open spec fn fold_char(c: char) -> char {
    if 'A' <= c <= 'Z' {
        ((c as u32) + 32) as char
    } else {
        c
    }
}

pub open spec fn folded(s: Seq<char>) -> Seq<char> {
    s.map_values(|c: char| fold_char(c))
}

/// Whether `n` occurs in `h`.
pub open spec fn occurs(h: Seq<char>, n: Seq<char>) -> bool {
    exists|i: int| 0 <= i && i + n.len() <= h.len() && #[trigger] h.subrange(i, i + n.len()) == n
}

/// The search filter: a blank query matches everything; otherwise the
/// trimmed query must occur in one of the fields, ASCII letters compared
/// without regard to case.
pub open spec fn matches_spec(q: Seq<char>, fields: Seq<Seq<char>>) -> bool {
    let t = trim(q);
    t.len() == 0 || exists|j: int| 0 <= j < fields.len() && occurs(folded(#[trigger] fields[j]), folded(t))
}

fn fold_exec(c: char) -> (r: char)
    ensures
        r == fold_char(c),
{
    if 'A' <= c && c <= 'Z' {
        let u: u32 = (c as u32) + 32;
        let b: u8 = u as u8;
        b as char
    } else {
        c
    }
}

fn folded_of(s: &str) -> (r: Vec<char>)
    ensures
        r@ == folded(s@),
{
    let v = chars_of(s);
    let mut r: Vec<char> = Vec::new();
    let mut i: usize = 0;
    while i < v.len()
        invariant
            i <= v@.len(),
            r@.len() == i,
            forall|k: int| 0 <= k < i ==> r@[k] == fold_char(v@[k]),
        decreases v@.len() - i,
    {
        r.push(fold_exec(v[i]));
        i = i + 1;
    }
    assert(r@ =~= folded(s@));
    r
}

/// Whether `n` occurs in `h`.
fn occurs_in(h: &[char], n: &[char]) -> (r: bool)
    ensures
        r == occurs(h@, n@),
{
    if n.len() > h.len() {
        return false;
    }
    let mut i: usize = 0;
    while n.len() <= h.len() - i
        invariant
            i <= h@.len(),
            forall|k: int| 0 <= k < i ==> #[trigger] h@.subrange(k, k + n@.len()) != n@,
        decreases h@.len() - i,
    {
        let mut j: usize = 0;
        let mut same = true;
        while j < n.len()
            invariant
                i + n@.len() <= h@.len(),
                h@.len() <= usize::MAX,
                j <= n@.len(),
                same == (forall|m: int| 0 <= m < j ==> h@[i + m] == n@[m]),
            decreases n@.len() - j,
        {
            if h[i + j] != n[j] {
                same = false;
            }
            j = j + 1;
        }
        if same {
            assert(h@.subrange(i as int, i + n@.len()) =~= n@);
            return true;
        }
        assert(h@.subrange(i as int, i + n@.len()) != n@) by {
            let m = choose|m: int| 0 <= m < n@.len() && h@[i + m] != n@[m];
            assert(h@.subrange(i as int, i + n@.len())[m] == h@[i + m]);
        }
        i = i + 1;
    }
    false
}

/// The search filter of the rails (see `matches_spec`).
pub fn matches_query(q: &str, fields: &[&str]) -> (r: bool)
    ensures
        r == matches_spec(q@, fields@.map_values(|f: &str| f@)),
{
    let t = trimmed(q);
    if t.as_str().is_empty() {
        return true;
    }
    let nt = folded_of(t.as_str());
    let ghost fs = fields@.map_values(|f: &str| f@);
    let mut j: usize = 0;
    while j < fields.len()
        invariant
            j <= fields@.len(),
            fs == fields@.map_values(|f: &str| f@),
            nt@ == folded(trim(q@)),
            forall|k: int| 0 <= k < j ==> !occurs(folded(#[trigger] fs[k]), folded(trim(q@))),
        decreases fields@.len() - j,
    {
        let hf = folded_of(fields[j]);
        if occurs_in(hf.as_slice(), nt.as_slice()) {
            assert(occurs(folded(fs[j as int]), folded(trim(q@))));
            return true;
        }
        j = j + 1;
    }
    false
}

/// The fields the search looks at: the command and its description.
pub open spec fn search_fields(c: CommandV) -> Seq<Seq<char>> {
    seq![c.cmd, match c.desc {
        Some(d) => d,
        None => Seq::empty(),
    }]
}

/// Whether the command is listed in the section under the search query.
pub open spec fn listed(section: Section, q: Seq<char>) -> spec_fn(CommandV) -> bool {
    |c: CommandV| section.holds(c) && matches_spec(q, search_fields(c))
}

/// `a` sorts before or with `b` in newest-first order (a missing time
/// last).
pub open spec fn newer_or_same(a: Option<u64>, b: Option<u64>) -> bool {
    match (a, b) {
        (_, None) => true,
        (None, Some(_)) => false,
        (Some(x), Some(y)) => x >= y,
    }
}

/// `x` inserted into a newest-first list, after the entries at least as new.
pub open spec fn insert_newest_first(s: Seq<(Seq<char>, Option<u64>)>, x: (Seq<char>, Option<u64>)) -> Seq<
    (Seq<char>, Option<u64>),
>
    decreases s.len(),
{
    if s.len() == 0 || newer_or_same(s.last().1, x.1) {
        s.push(x)
    } else {
        insert_newest_first(s.drop_last(), x).push(s.last())
    }
}

/// The entries newest first; entries equally new keep their order.
pub open spec fn newest_first(s: Seq<(Seq<char>, Option<u64>)>) -> Seq<(Seq<char>, Option<u64>)>
    decreases s.len(),
{
    if s.len() == 0 {
        s
    } else {
        insert_newest_first(newest_first(s.drop_last()), s.last())
    }
}

/// The ids a section lists, in order: the commands of the section that
/// the query matches, in catalogue order for PINNED and newest first for
/// RECENT.
pub open spec fn section_ids_spec(cs: Seq<CommandV>, section: Section, q: Seq<char>) -> Seq<Seq<char>> {
    let entries = cs.filter(listed(section, q)).map_values(|c: CommandV| (c.id, c.last_used));
    let ordered = match section {
        Section::Recent => newest_first(entries),
        Section::Pinned => entries,
    };
    ordered.map_values(|e: (Seq<char>, Option<u64>)| e.0)
}

fn is_newer_or_same(a: Option<u64>, b: Option<u64>) -> (r: bool)
    ensures
        r == newer_or_same(a, b),
{
    match (a, b) {
        (_, None) => true,
        (None, Some(_)) => false,
        (Some(x), Some(y)) => x >= y,
    }
}

pub open spec fn entries_view(v: Seq<(String, Option<u64>)>) -> Seq<(Seq<char>, Option<u64>)> {
    v.map_values(|e: (String, Option<u64>)| (e.0@, e.1))
}

fn insert_entry(v: &mut Vec<(String, Option<u64>)>, x: (String, Option<u64>))
    ensures
        entries_view(final(v)@) == insert_newest_first(entries_view(old(v)@), (x.0@, x.1)),
    decreases old(v)@.len(),
{
    let n = v.len();
    if n == 0 || is_newer_or_same(v[n - 1].1, x.1) {
        let ghost before = entries_view(v@);
        v.push(x);
        assert(entries_view(v@) =~= before.push((x.0@, x.1)));
        return;
    }
    let ghost before = entries_view(v@);
    let last = v.pop().unwrap();
    assert(entries_view(v@) =~= before.drop_last());
    insert_entry(v, x);
    let ghost mid = entries_view(v@);
    v.push(last);
    assert(entries_view(v@) =~= mid.push(before.last()));
}

/// The ids of the commands a section lists (see `section_ids_spec`).
pub fn section_command_ids(commands: &Vec<Command>, section: Section, query: &str) -> (r: Vec<String>)
    ensures
        r@.map_values(|s: String| s@) == section_ids_spec(
            commands@.map_values(|c: Command| c@),
            section,
            query@,
        ),
{
    let ghost cs = commands@.map_values(|c: Command| c@);
    let ghost pred = listed(section, query@);
    let mut entries: Vec<(String, Option<u64>)> = Vec::new();
    let mut i: usize = 0;
    proof {
        reveal_strlit("");
    }
    while i < commands.len()
        invariant
            i <= commands@.len(),
            cs == commands@.map_values(|c: Command| c@),
            pred == listed(section, query@),
            ""@ == Seq::<char>::empty(),
            entries_view(entries@) == (match section {
                Section::Recent => newest_first(
                    cs.take(i as int).filter(pred).map_values(|c: CommandV| (c.id, c.last_used)),
                ),
                Section::Pinned => cs.take(i as int).filter(pred).map_values(|c: CommandV| (c.id, c.last_used)),
            }),
        decreases commands@.len() - i,
    {
        let c = &commands[i];
        let desc: &str = match &c.desc {
            Some(d) => d.as_str(),
            None => "",
        };
        let fields = [c.cmd.as_str(), desc];
        assert(fields@.map_values(|f: &str| f@) =~= search_fields(cs[i as int]));
        let ghost before = cs.take(i as int).filter(pred);
        proof {
            crate::state::ops::lemma_filter_push(cs.take(i as int), pred, cs[i as int]);
            assert(cs.take(i + 1) =~= cs.take(i as int).push(cs[i as int]));
        }
        if section.contains(c) && matches_query(query, &fields) {
            let e = (c.id.clone(), c.last_used);
            let ghost ev = before.map_values(|c: CommandV| (c.id, c.last_used));
            assert(before.push(cs[i as int]).map_values(|c: CommandV| (c.id, c.last_used)) =~= ev.push(
                (cs[i as int].id, cs[i as int].last_used),
            ));
            match section {
                Section::Recent => {
                    insert_entry(&mut entries, e);
                    assert(ev.push((cs[i as int].id, cs[i as int].last_used)).drop_last() =~= ev);
                },
                Section::Pinned => {
                    let ghost old_e = entries_view(entries@);
                    entries.push(e);
                    assert(entries_view(entries@) =~= old_e.push((cs[i as int].id, cs[i as int].last_used)));
                },
            }
        }
        i = i + 1;
    }
    assert(cs.take(i as int) =~= cs);
    let mut r: Vec<String> = Vec::new();
    let mut k: usize = 0;
    while k < entries.len()
        invariant
            k <= entries@.len(),
            r@.len() == k,
            forall|j: int| 0 <= j < k ==> (#[trigger] r@[j])@ == entries@[j].0@,
        decreases entries@.len() - k,
    {
        r.push(entries[k].0.clone());
        k = k + 1;
    }
    let ghost ev = entries_view(entries@);
    assert(r@.map_values(|s: String| s@) =~= ev.map_values(|e: (Seq<char>, Option<u64>)| e.0));
    r
}

} // verus!
