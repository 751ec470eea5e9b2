//! Which members are saved, what is already on disk, and what each message
//! of the timeline becomes.
use vstd::prelude::*;

use crate::datetime::{api_format, chrono_format, chrono_parse, compact_format, compact_to_api, to_api_text};
use crate::errors::Error;
use crate::http::groups::Groups;
use crate::http::members::Members;
use crate::http::tags::Tags;
use crate::http::timeline::{DEFAULT_COUNT, TimelineMessages};
use crate::message::file::{SaveToFile, actions_view, file_stem, media_actions, opt_view, text_actions,
    date_error_text, Extension, FileAction, FileActionView, Picture, Text, Video, Voice, file_name};
use crate::text::{less, str_less, push_all, lemma_less_total, lemma_less_asymmetric, lemma_less_transitive, lemma_less_irreflexive};
use crate::Kind;
use std::collections::HashMap;
use crate::text::{has_visible_char, owned, parsed_u32, parse_u32, remove_whitespace,
    without_whitespace, is_blank, same_text, all_ascii_digits, is_ascii_digit, digits_value,
    decimal, digit_char, lemma_decimal_digits};
use crate::datetime::{api_text, compact_text, lemma_compact_text_digits, DateTimeParts};

verus! {

// ----------------------------------------------------------------------------
// Members
// ----------------------------------------------------------------------------

/// A member whose messages can be saved, and where they go.
#[derive(Debug)]
pub struct MemberIdentifier {
    pub id: u32,
    /// The member's name without any whitespace: the directory of the files.
    pub name: String,
    /// The member's generation: the directory above.
    pub gen: String,
    pub subscription: bool,
}

impl Clone for MemberIdentifier {
    fn clone(&self) -> (r: Self)
        ensures
            r == *self,
    {
        MemberIdentifier {
            id: self.id,
            name: self.name.clone(),
            gen: self.gen.clone(),
            subscription: self.subscription,
        }
    }
}

impl MemberIdentifier {
    pub fn new(id: u32, name: String, gen: String, subscription: bool) -> (r: MemberIdentifier)
        ensures
            r.id == id,
            r.name == name,
            r.gen == gen,
            r.subscription == subscription,
    {
        MemberIdentifier { id, name, gen, subscription }
    }
}

/// The plain values of a member identifier.
pub struct MemberView {
    pub id: u32,
    pub name: Seq<char>,
    pub gen: Seq<char>,
    pub subscription: bool,
}

impl View for MemberIdentifier {
    type V = MemberView;

    open spec fn view(&self) -> MemberView {
        MemberView {
            id: self.id,
            name: self.name@,
            gen: self.gen@,
            subscription: self.subscription,
        }
    }
}

pub open spec fn members_view(ms: Seq<MemberIdentifier>) -> Seq<MemberView> {
    ms.map_values(|m: MemberIdentifier| m@)
}

pub open spec fn strings_view(v: Seq<String>) -> Seq<Seq<char>> {
    v.map_values(|s: String| s@)
}

/// Whether a tag has a dimension: such tags name larger groups, the others
/// name generations.
pub open spec fn has_dimension(t: Tags) -> bool {
    t.meta matches Some(m) && m.dimension is Some
}

/// The generation of a group: the name of the last tag (in the order of
/// `tags`) that the group carries and that has no dimension, or "".
pub open spec fn generation_of(group_tags: Seq<Seq<char>>, tags: Seq<Tags>) -> Seq<char>
    decreases tags.len(),
{
    if tags.len() == 0 {
        Seq::empty()
    } else if group_tags.contains(tags.last().uuid@) && !has_dimension(tags.last()) {
        tags.last().name@
    } else {
        generation_of(group_tags, tags.drop_last())
    }
}

/// The member that a group stands for.
pub open spec fn member_of(g: Groups, tags: Seq<Tags>) -> MemberView {
    MemberView {
        id: g.id,
        name: without_whitespace(g.name@),
        gen: generation_of(strings_view(g.tags@), tags),
        subscription: g.subscription is Some,
    }
}

fn strings_contain(v: &Vec<String>, wanted: &String) -> (r: bool)
    ensures
        r == strings_view(v@).contains(wanted@),
{
    let n = v.len();
    for i in 0..n
        invariant
            n == v.len(),
            forall|j: int| 0 <= j < i ==> v@[j]@ != wanted@,
    {
        if v[i] == *wanted {
            assert(strings_view(v@)[i as int] == wanted@);
            return true;
        }
    }
    proof {
        let s = strings_view(v@);
        if s.contains(wanted@) {
            let k = choose|k: int| 0 <= k < s.len() && s[k] == wanted@;
            assert(v@[k]@ == wanted@);
        }
    }
    false
}

fn generation(group_tags: &Vec<String>, tags: &Vec<Tags>) -> (r: String)
    ensures
        r@ == generation_of(strings_view(group_tags@), tags@),
{
    let mut k = tags.len();
    assert(tags@.take(k as int) =~= tags@);
    while k > 0
        invariant
            k <= tags.len(),
            generation_of(strings_view(group_tags@), tags@) == generation_of(
                strings_view(group_tags@),
                tags@.take(k as int),
            ),
        decreases k,
    {
        let t = &tags[k - 1];
        assert(tags@.take(k as int).last() == *t);
        assert(tags@.take(k as int).drop_last() =~= tags@.take(k - 1));
        let has_dim = match &t.meta {
            Some(m) => m.dimension.is_some(),
            None => false,
        };
        if strings_contain(group_tags, &t.uuid) && !has_dim {
            return t.name.clone();
        }
        k = k - 1;
    }
    String::new()
}

/// Every group as a member, in the order of the groups.
pub fn create_member_identifier_list(group: &Vec<Groups>, tags: &Vec<Tags>) -> (r: Vec<MemberIdentifier>)
    ensures
        members_view(r@) == group@.map_values(|g: Groups| member_of(g, tags@)),
{
    let mut r: Vec<MemberIdentifier> = Vec::new();
    let n = group.len();
    for i in 0..n
        invariant
            n == group.len(),
            members_view(r@) == group@.take(i as int).map_values(|g: Groups| member_of(g, tags@)),
    {
        let g = &group[i];
        let m = MemberIdentifier::new(
            g.id,
            remove_whitespace(g.name.as_str()),
            generation(&g.tags, tags),
            g.subscription.is_some(),
        );
        assert(m@ == member_of(*g, tags@));
        let ghost before = r@;
        r.push(m);
        assert(r@ == before.push(m));
        assert(members_view(r@) =~= members_view(before).push(m@));
        assert(group@.take(i + 1) =~= group@.take(i as int).push(*g));
        assert(members_view(r@) =~= group@.take(i + 1).map_values(|g: Groups| member_of(g, tags@)));
    }
    assert(group@.take(n as int) =~= group@);
    r
}

/// Whether a member's messages are saved: it is subscribed, and no names
/// were given or one of them is its name.
pub open spec fn wanted(m: MemberView, names: Seq<Seq<char>>) -> bool {
    m.subscription && (names.len() == 0 || names.contains(m.name))
}

/// The members of `ms` whose messages are saved, in their order.
pub open spec fn wanted_members(ms: Seq<MemberView>, names: Seq<Seq<char>>) -> Seq<MemberView> {
    ms.filter(|m: MemberView| wanted(m, names))
}

/// The members whose messages are saved, in the order of the groups.
/// `names` are the names asked for, already trimmed.
pub fn subscribed_list(group: &Vec<Groups>, tags: &Vec<Tags>, names: &Vec<String>) -> (r: Vec<MemberIdentifier>)
    ensures
        members_view(r@) == wanted_members(
            group@.map_values(|g: Groups| member_of(g, tags@)),
            strings_view(names@),
        ),
        forall|i: int, j: int|
            0 <= i < group@.len() && 0 <= j < names@.len() && (#[trigger] member_of(group@[i], tags@)).subscription
                && #[trigger] names@[j]@ == member_of(group@[i], tags@).name ==> members_view(r@).contains(
                member_of(group@[i], tags@),
            ),
        names@.len() == 0 ==> forall|i: int|
            0 <= i < group@.len() ==> ((#[trigger] member_of(group@[i], tags@)).subscription
                <==> members_view(r@).contains(member_of(group@[i], tags@))),
{
    let all = create_member_identifier_list(group, tags);
    let ghost all_view = members_view(all@);
    let ghost pred = |m: MemberView| wanted(m, strings_view(names@));
    let mut r: Vec<MemberIdentifier> = Vec::new();
    let n = all.len();
    for i in 0..n
        invariant
            n == all.len(),
            all_view == members_view(all@),
            pred == (|m: MemberView| wanted(m, strings_view(names@))),
            members_view(r@) == all_view.take(i as int).filter(pred),
    {
        let m = &all[i];
        let keep = m.subscription && (names.len() == 0 || strings_contain(names, &m.name));
        assert(all_view.take(i + 1).drop_last() =~= all_view.take(i as int));
        assert(all_view.take(i + 1).last() == m@);
        reveal_with_fuel(Seq::<_>::filter, 1);
        if keep {
            let ghost before = r@;
            r.push(m.clone());
            assert(r@ == before.push(*m));
            assert(members_view(r@) =~= members_view(before).push(m@));
        }
    }
    assert(all_view.take(n as int) =~= all_view);
    proof {
        let ms = group@.map_values(|g: Groups| member_of(g, tags@));
        let nv = strings_view(names@);
        assert forall|i: int, j: int|
            0 <= i < group@.len() && 0 <= j < names@.len() && (#[trigger] member_of(group@[i], tags@)).subscription
                && #[trigger] names@[j]@ == member_of(group@[i], tags@).name implies members_view(r@).contains(
            member_of(group@[i], tags@),
        ) by {
            assert(ms[i] == member_of(group@[i], tags@));
            assert(nv[j] == names@[j]@);
            lemma_every_named_member_is_kept(ms, nv, i, j);
        }
        if names@.len() == 0 {
            assert(nv =~= Seq::<Seq<char>>::empty());
            assert forall|i: int| 0 <= i < group@.len() implies ((#[trigger] member_of(group@[i], tags@)).subscription
                <==> members_view(r@).contains(member_of(group@[i], tags@))) by {
                assert(ms[i] == member_of(group@[i], tags@));
                lemma_no_names_keeps_every_subscribed(ms, i);
            }
        }
    }
    r
}

/// Only what is asked for is saved: every member that `subscribed_list`
/// keeps is subscribed, and carries one of the names asked for when names
/// were given; every subscribed member with such a name is kept.
pub proof fn lemma_subscribed_members_are_wanted(ms: Seq<MemberView>, names: Seq<Seq<char>>)
    ensures
        forall|i: int|
            0 <= i < wanted_members(ms, names).len() ==> (#[trigger] wanted_members(ms, names)[i]).subscription
                && (names.len() == 0 || names.contains(wanted_members(ms, names)[i].name)),
        forall|i: int|
            0 <= i < ms.len() && #[trigger] wanted(ms[i], names) ==> wanted_members(ms, names).contains(ms[i]),
{
    broadcast use vstd::seq_lib::group_filter_ensures;

    let pred = |m: MemberView| wanted(m, names);
    assert forall|i: int| 0 <= i < wanted_members(ms, names).len() implies (#[trigger] wanted_members(
        ms,
        names,
    )[i]).subscription && (names.len() == 0 || names.contains(wanted_members(ms, names)[i].name)) by {
        assert(pred(ms.filter(pred)[i]));
    }
    assert forall|i: int| 0 <= i < ms.len() && #[trigger] wanted(ms[i], names) implies wanted_members(
        ms,
        names,
    ).contains(ms[i]) by {
        assert(pred(ms[i]));
        assert(ms.filter(pred).contains(ms[i]));
    }
}

/// Every subscribed member whose name is any one of the names asked for is
/// kept by `subscribed_list`, whichever place that name has among them.
pub proof fn lemma_every_named_member_is_kept(ms: Seq<MemberView>, names: Seq<Seq<char>>, i: int, j: int)
    requires
        0 <= i < ms.len(),
        0 <= j < names.len(),
        ms[i].subscription,
        names[j] == ms[i].name,
    ensures
        wanted_members(ms, names).contains(ms[i]),
{
    broadcast use vstd::seq_lib::group_filter_ensures;

    let pred = |m: MemberView| wanted(m, names);
    assert(names.contains(ms[i].name)) by {
        assert(names[j] == ms[i].name);
    }
    assert(pred(ms[i]));
    assert(ms.filter(pred).contains(ms[i]));
}

/// When no names are asked for, every subscribed member is kept, and every
/// member kept is subscribed.
pub proof fn lemma_no_names_keeps_every_subscribed(ms: Seq<MemberView>, i: int)
    requires
        0 <= i < ms.len(),
    ensures
        ms[i].subscription ==> wanted_members(ms, Seq::empty()).contains(ms[i]),
        wanted_members(ms, Seq::empty()).contains(ms[i]) ==> ms[i].subscription,
{
    broadcast use vstd::seq_lib::group_filter_ensures;

    let names: Seq<Seq<char>> = Seq::empty();
    let pred = |m: MemberView| wanted(m, names);
    if ms[i].subscription {
        assert(pred(ms[i]));
        assert(ms.filter(pred).contains(ms[i]));
    }
    if ms.filter(pred).contains(ms[i]) {
        let k = choose|k: int| 0 <= k < ms.filter(pred).len() && ms.filter(pred)[k] == ms[i];
        assert(pred(ms.filter(pred)[k]));
    }
}

/// How many members are saved at once: the jobs asked for, but no more
/// than there are members.
pub fn worker_count(jobs: usize, total_members: usize) -> (r: usize)
    ensures
        r == if jobs < total_members { jobs } else { total_members },
{
    if jobs < total_members {
        jobs
    } else {
        total_members
    }
}

// ----------------------------------------------------------------------------
// Saved files
// ----------------------------------------------------------------------------

/// A saved message, as its file name tells it: the message id and the
/// compact date.
#[derive(Debug)]
pub struct IdDate {
    pub id: u32,
    pub date: String,
}

impl Clone for IdDate {
    fn clone(&self) -> (r: Self)
        ensures
            r == *self,
    {
        IdDate { id: self.id, date: self.date.clone() }
    }
}

impl View for IdDate {
    type V = (u32, Seq<char>);

    open spec fn view(&self) -> (u32, Seq<char>) {
        (self.id, self.date@)
    }
}

pub open spec fn id_dates_view(v: Seq<IdDate>) -> Seq<(u32, Seq<char>)> {
    v.map_values(|x: IdDate| x@)
}

/// The pattern that finds a message id and date in a file name.
pub open spec fn id_date_pattern() -> Seq<char> {
    "(?x)(?P<id>\\d+)_\\d_(?P<date>\\d+)"@
}

/// What the regex crate's `Regex::captures` finds in a text for a pattern
/// with the groups `id` and `date`: the two groups' texts.
pub uninterp spec fn regex_id_date(pattern: Seq<char>, text: Seq<char>) -> Option<(Seq<char>, Seq<char>)>;

/// The names that this library writes: ASCII digits (the id), `_`, one digit
/// (the kind), `_`, ASCII digits (the date), and then nothing, `_` or `.`.
pub open spec fn saved_name_shape(
    text: Seq<char>,
    id: Seq<char>,
    kind: char,
    date: Seq<char>,
    rest: Seq<char>,
) -> bool {
    &&& text == id + seq!['_', kind, '_'] + date + rest
    &&& id.len() > 0 && all_ascii_digits(id)
    &&& is_ascii_digit(kind)
    &&& date.len() > 0 && all_ascii_digits(date)
    &&& (rest.len() == 0 || rest[0] == '_' || rest[0] == '.')
}

pub open spec fn pair_view(r: Option<(String, String)>) -> Option<(Seq<char>, Seq<char>)> {
    match r {
        Some(p) => Some((p.0@, p.1@)),
        None => None,
    }
}

/// Looks for the id and date groups of the pattern with the regex crate's
/// `Regex::new` and `Regex::captures`. The result is named by
/// `regex_id_date`. As the crate documents its leftmost-first, greedy
/// matching: a text of the saved-name shape is matched from its start, the
/// digit runs being taken whole. What other texts give is not stated.
#[verifier::external_body]
fn capture_id_date(pattern: &str, text: &str) -> (r: Option<(String, String)>)
    requires
        pattern@ == id_date_pattern(),
    ensures
        pair_view(r) == regex_id_date(pattern@, text@),
        forall|id: Seq<char>, kind: char, date: Seq<char>, rest: Seq<char>|
            #[trigger] saved_name_shape(text@, id, kind, date, rest) ==> pair_view(r) == Some(
                (id, date),
            ),
{
    let re = match regex::Regex::new(pattern) {
        Ok(re) => re,
        Err(_) => return None,
    };
    re.captures(text).map(|c| (c["id"].to_string(), c["date"].to_string()))
}

/// What a file name tells of a saved message: its id and date, where the
/// pattern finds them and the id reads as a `u32`.
pub open spec fn name_id_date(name: Seq<char>) -> Option<(u32, Seq<char>)> {
    match regex_id_date(id_date_pattern(), name) {
        Some((id, date)) => match parsed_u32(id) {
            Some(n) => Some((n, date)),
            None => None,
        },
        None => None,
    }
}

/// The saved messages that the names tell of, in the order of the names.
pub open spec fn found_id_dates(names: Seq<Seq<char>>) -> Seq<(u32, Seq<char>)>
    decreases names.len(),
{
    if names.len() == 0 {
        Seq::empty()
    } else {
        match name_id_date(names.last()) {
            Some(x) => found_id_dates(names.drop_last()).push(x),
            None => found_id_dates(names.drop_last()),
        }
    }
}

/// `x` placed after every element whose id is not greater (a stable insertion).
pub open spec fn insert_by_id(s: Seq<(u32, Seq<char>)>, x: (u32, Seq<char>)) -> Seq<(u32, Seq<char>)>
    decreases s.len(),
{
    if s.len() == 0 {
        seq![x]
    } else if s.last().0 <= x.0 {
        s.push(x)
    } else {
        insert_by_id(s.drop_last(), x).push(s.last())
    }
}

/// The stable sort by id (what `sort_by` on the ids gives).
pub open spec fn sort_by_id(s: Seq<(u32, Seq<char>)>) -> Seq<(u32, Seq<char>)>
    decreases s.len(),
{
    if s.len() == 0 {
        s
    } else {
        insert_by_id(sort_by_id(s.drop_last()), s.last())
    }
}

pub open spec fn sorted_by_id(s: Seq<(u32, Seq<char>)>) -> bool {
    forall|i: int, j: int| 0 <= i <= j < s.len() ==> s[i].0 <= s[j].0
}

proof fn lemma_insert_at(s: Seq<(u32, Seq<char>)>, x: (u32, Seq<char>), j: int)
    requires
        0 <= j <= s.len(),
        forall|k: int| j <= k < s.len() ==> s[k].0 > x.0,
        j == 0 || s[j - 1].0 <= x.0,
    ensures
        insert_by_id(s, x) == s.take(j) + seq![x] + s.skip(j),
    decreases s.len(),
{
    if s.len() == 0 {
        assert(s.take(j) + seq![x] + s.skip(j) =~= seq![x]);
    } else if j == s.len() {
        assert(s.take(j) + seq![x] + s.skip(j) =~= s.push(x));
    } else {
        lemma_insert_at(s.drop_last(), x, j);
        assert(s.drop_last().take(j) + seq![x] + s.drop_last().skip(j) + seq![s.last()] =~= s.take(j)
            + seq![x] + s.skip(j));
    }
}

/// Sorting leaves the ids in increasing order.
pub proof fn lemma_sort_by_id_sorted(s: Seq<(u32, Seq<char>)>)
    ensures
        sorted_by_id(sort_by_id(s)),
        sort_by_id(s).len() == s.len(),
    decreases s.len(),
{
    if s.len() > 0 {
        lemma_sort_by_id_sorted(s.drop_last());
        lemma_insert_sorted(sort_by_id(s.drop_last()), s.last());
    }
}

proof fn lemma_insert_sorted(s: Seq<(u32, Seq<char>)>, x: (u32, Seq<char>))
    requires
        sorted_by_id(s),
    ensures
        sorted_by_id(insert_by_id(s, x)),
        insert_by_id(s, x).len() == s.len() + 1,
        forall|i: int| 0 <= i < insert_by_id(s, x).len() ==> (#[trigger] insert_by_id(s, x)[i] == x
            || s.contains(insert_by_id(s, x)[i])),
    decreases s.len(),
{
    if s.len() > 0 && s.last().0 > x.0 {
        let t = s.drop_last();
        assert forall|i: int, j: int| 0 <= i <= j < t.len() implies t[i].0 <= t[j].0 by {
            assert(t[i] == s[i] && t[j] == s[j]);
        }
        lemma_insert_sorted(t, x);
        let u = insert_by_id(t, x);
        let r = u.push(s.last());
        assert forall|i: int| 0 <= i < u.len() implies #[trigger] u[i].0 <= s.last().0 by {
            if u[i] != x {
                assert(t.contains(u[i]));
                let k = choose|k: int| 0 <= k < t.len() && t[k] == u[i];
                assert(s[k] == u[i]);
            }
        }
        assert forall|i: int, j: int| 0 <= i <= j < r.len() implies r[i].0 <= r[j].0 by {
            if j == r.len() - 1 {
                if i < j {
                    assert(r[i] == u[i]);
                }
            } else {
                assert(r[i] == u[i] && r[j] == u[j]);
            }
        }
        assert forall|i: int| 0 <= i < r.len() implies (#[trigger] r[i] == x || s.contains(r[i])) by {
            if i == r.len() - 1 {
                assert(s[s.len() - 1] == r[i]);
            } else {
                assert(r[i] == u[i]);
                if u[i] != x {
                    let k = choose|k: int| 0 <= k < t.len() && t[k] == u[i];
                    assert(s[k] == r[i]);
                }
            }
        }
    } else if s.len() > 0 {
        let r = s.push(x);
        assert forall|i: int| 0 <= i < r.len() implies (#[trigger] r[i] == x || s.contains(r[i])) by {
            if i < s.len() {
                assert(s[i] == r[i]);
            }
        }
    }
}

/// Inserting keeps every element and adds the new one.
proof fn lemma_insert_keeps(s: Seq<(u32, Seq<char>)>, x: (u32, Seq<char>))
    ensures
        insert_by_id(s, x).contains(x),
        forall|e: (u32, Seq<char>)| s.contains(e) ==> #[trigger] insert_by_id(s, x).contains(e),
    decreases s.len(),
{
    let r = insert_by_id(s, x);
    if s.len() == 0 {
        assert(r[0] == x);
    } else if s.last().0 <= x.0 {
        assert(r == s.push(x));
        assert(r[r.len() - 1] == x);
        assert forall|e: (u32, Seq<char>)| s.contains(e) implies r.contains(e) by {
            let k = choose|k: int| 0 <= k < s.len() && s[k] == e;
            assert(r[k] == e);
        }
    } else {
        let t = s.drop_last();
        lemma_insert_keeps(t, x);
        let u = insert_by_id(t, x);
        assert(r == u.push(s.last()));
        let kx = choose|k: int| 0 <= k < u.len() && u[k] == x;
        assert(r[kx] == x);
        assert forall|e: (u32, Seq<char>)| s.contains(e) implies r.contains(e) by {
            let k = choose|k: int| 0 <= k < s.len() && s[k] == e;
            if k == s.len() - 1 {
                assert(r[r.len() - 1] == e);
            } else {
                assert(t[k] == e);
                assert(t.contains(e));
                assert(insert_by_id(t, x).contains(e));
                let j = choose|j: int| 0 <= j < u.len() && u[j] == e;
                assert(r[j] == u[j]);
            }
        }
    }
}

fn insert_sorted(v: &mut Vec<IdDate>, x: IdDate)
    ensures
        id_dates_view(final(v)@) == insert_by_id(id_dates_view(old(v)@), x@),
{
    let ghost s = id_dates_view(v@);
    let mut j = v.len();
    while j > 0 && v[j - 1].id > x.id
        invariant
            j <= v.len(),
            s == id_dates_view(v@),
            forall|k: int| j <= k < s.len() ==> s[k].0 > x.id,
        decreases j,
    {
        j = j - 1;
    }
    proof {
        lemma_insert_at(s, x@, j as int);
    }
    v.insert(j, x);
    assert(id_dates_view(v@) =~= s.take(j as int) + seq![x@] + s.skip(j as int));
}

/// What a file name tells of a saved message (see `name_id_date`); any other
/// file, one whose id does not fit in 32 bits among them, is ignored. A name
/// that this library wrote, with anything after it, tells the id and date it
/// was written with.
pub fn dir_entry_to_id_date(file_name: &str) -> (r: Option<IdDate>)
    ensures
        match r {
            Some(x) => name_id_date(file_name@) == Some(x@),
            None => name_id_date(file_name@) is None,
        },
        forall|id: Seq<char>, kind: char, date: Seq<char>, rest: Seq<char>|
            #[trigger] saved_name_shape(file_name@, id, kind, date, rest) ==> (if parsed_u32(id) is Some {
                r matches Some(x) && x@ == (digits_value(id) as u32, date)
            } else {
                r is None
            }),
{
    let pattern = "(?x)(?P<id>\\d+)_\\d_(?P<date>\\d+)";
    match capture_id_date(pattern, file_name) {
        Some((id_text, date)) => match parse_u32(id_text.as_str()) {
            Some(id) => {
                let r = IdDate { id, date };
                assert forall|i: Seq<char>, k: char, d: Seq<char>, rest: Seq<char>|
                    #[trigger] saved_name_shape(file_name@, i, k, d, rest) && parsed_u32(i) is Some
                    implies r@ == (digits_value(i) as u32, d) by {
                    lemma_digits_parse(i);
                }
                Some(r)
            },
            None => None,
        },
        None => None,
    }
}

/// A non-empty run of ASCII digits that fits in 32 bits reads as its value.
proof fn lemma_digits_parse(s: Seq<char>)
    requires
        s.len() > 0,
        all_ascii_digits(s),
        parsed_u32(s) is Some,
    ensures
        parsed_u32(s) == Some(digits_value(s) as u32),
{
    if s.len() > 1 && s[0] == '+' {
        assert(is_ascii_digit(s[0]));
    }
}

/// The saved messages that the names tell of, sorted by id (stably); the
/// other names are ignored. Every name that this library wrote is among them.
pub fn id_dates_from_names(names: &Vec<String>) -> (r: Vec<IdDate>)
    ensures
        id_dates_view(r@) == sort_by_id(found_id_dates(strings_view(names@))),
        forall|k: int, id: Seq<char>, kind: char, date: Seq<char>, rest: Seq<char>|
            0 <= k < names@.len() && #[trigger] saved_name_shape(names@[k]@, id, kind, date, rest)
                && parsed_u32(id) is Some ==> id_dates_view(r@).contains((digits_value(id) as u32, date)),
{
    let mut r: Vec<IdDate> = Vec::new();
    let n = names.len();
    for i in 0..n
        invariant
            n == names.len(),
            id_dates_view(r@) == sort_by_id(found_id_dates(strings_view(names@).take(i as int))),
            forall|k: int, id: Seq<char>, kind: char, date: Seq<char>, rest: Seq<char>|
                0 <= k < i && #[trigger] saved_name_shape(names@[k]@, id, kind, date, rest)
                    && parsed_u32(id) is Some ==> id_dates_view(r@).contains((digits_value(id) as u32, date)),
    {
        let ghost prefix = strings_view(names@).take(i + 1);
        assert(prefix.drop_last() =~= strings_view(names@).take(i as int));
        assert(prefix.last() == names@[i as int]@);
        assert(strings_view(names@)[i as int] == names@[i as int]@);
        match dir_entry_to_id_date(names[i].as_str()) {
            Some(x) => {
                let ghost f = found_id_dates(strings_view(names@).take(i as int));
                assert(found_id_dates(prefix) == f.push(x@));
                assert(f.push(x@).drop_last() =~= f);
                assert(sort_by_id(f.push(x@)) == insert_by_id(sort_by_id(f), x@));
                let ghost before = id_dates_view(r@);
                let ghost xv = x@;
                insert_sorted(&mut r, x);
                proof {
                    lemma_insert_keeps(before, xv);
                }
            },
            None => {
                assert(found_id_dates(prefix) == found_id_dates(strings_view(names@).take(i as int)));
            },
        }
    }
    assert(strings_view(names@).take(n as int) =~= strings_view(names@));
    r
}

/// The id of every saved message.
pub open spec fn saved_ids(id_dates: Seq<IdDate>) -> Seq<u32> {
    id_dates.map_values(|x: IdDate| x.id)
}

fn is_saved(id_dates: &Vec<IdDate>, id: u32) -> (r: bool)
    ensures
        r == saved_ids(id_dates@).contains(id),
{
    let n = id_dates.len();
    for i in 0..n
        invariant
            n == id_dates.len(),
            forall|j: int| 0 <= j < i ==> id_dates@[j].id != id,
    {
        if id_dates[i].id == id {
            assert(saved_ids(id_dates@)[i as int] == id);
            return true;
        }
    }
    proof {
        let s = saved_ids(id_dates@);
        if s.contains(id) {
            let k = choose|k: int| 0 <= k < s.len() && s[k] == id;
            assert(id_dates@[k].id == id);
        }
    }
    false
}

/// The date from which the timeline is read when none is given.
pub open spec fn initial_date() -> Seq<char> {
    "2000-01-01T09:00:00Z"@
}

/// Whether `r` is where the timeline is read from when no date is given
/// (see `latest_date`).
pub open spec fn latest_date_is(id_dates: Seq<IdDate>, r: core::result::Result<String, Error>) -> bool {
    &&& id_dates.len() == 0 ==> r is Ok && r->Ok_0@ == initial_date()
    &&& id_dates.len() > 0 ==> match chrono_parse(id_dates.last().date@, compact_format()) {
        Ok(dt) => r is Ok && r->Ok_0@ == chrono_format(dt, api_format()),
        Err(e) => r is Err && r->Err_0 is ParseError && r->Err_0.text() == e,
    }
}

/// Where the timeline is read from when no date is given: the date of the
/// last saved message (by id) in the API format, or the initial date where
/// nothing is saved.
pub fn latest_date(id_dates: &Vec<IdDate>) -> (r: core::result::Result<String, Error>)
    ensures
        latest_date_is(id_dates@, r),
        forall|d: DateTimeParts|
            id_dates@.len() > 0 && d.valid() && d.plain() && d.nanosecond == 0 && #[trigger] compact_text(d)
                == id_dates@.last().date@ ==> r is Ok && r->Ok_0@ == api_text(d),
{
    if id_dates.len() == 0 {
        return Ok(owned("2000-01-01T09:00:00Z"));
    }
    let last = &id_dates[id_dates.len() - 1];
    match compact_to_api(last.date.as_str()) {
        Ok(s) => Ok(s),
        Err(e) => Err(Error::ParseError(e)),
    }
}

/// Where the timeline is first read from: the date given with `--from`,
/// else where the saved files end (see `latest_date`).
pub fn start_date(from: &Option<DateTimeParts>, id_dates: &Vec<IdDate>) -> (r: core::result::Result<String, Error>)
    requires
        from matches Some(d) ==> d.valid(),
    ensures
        match from {
            Some(d) => r is Ok && r->Ok_0@ == chrono_format(*d, api_format()),
            None => latest_date_is(id_dates@, r),
        },
{
    match from {
        Some(d) => Ok(to_api_text(d)),
        None => latest_date(id_dates),
    }
}

// ----------------------------------------------------------------------------
// One message
// ----------------------------------------------------------------------------

/// Member names by id, as a list of members collected into a map: the last
/// entry with an id wins.
pub open spec fn names_map(ms: Seq<Members>) -> Map<u32, String>
    decreases ms.len(),
{
    if ms.len() == 0 {
        Map::empty()
    } else {
        names_map(ms.drop_last()).insert(ms.last().id, ms.last().name)
    }
}

/// Member names by id (`members.into_iter().map(|m| (m.id, m.name)).collect()`).
pub fn names_by_id(members: Vec<Members>) -> (r: HashMap<u32, String>)
    ensures
        r@ == names_map(members@),
{
    broadcast use vstd::std_specs::hash::group_hash_axioms;

    let ghost all = members@;
    let mut r: HashMap<u32, String> = HashMap::new();
    let mut i: usize = 0;
    let n = members.len();
    while i < n
        invariant
            n == members.len(),
            all == members@,
            i <= n,
            r@ == names_map(all.take(i as int)),
        decreases n - i,
    {
        let m = &members[i];
        assert(all.take(i + 1).drop_last() =~= all.take(i as int));
        r.insert(m.id, m.name.clone());
        i = i + 1;
    }
    assert(all.take(n as int) =~= all);
    r
}

/// The name under an id, unless it is missing or blank.
pub open spec fn visible_name(names: Map<u32, String>, id: u32) -> Option<Seq<char>> {
    if names.contains_key(id) && has_visible_char(names[id]@) {
        Some(names[id]@)
    } else {
        None
    }
}

pub open spec fn unknown_poster() -> Seq<char> {
    "unknown"@
}

/// Who posted a message: its member's name among the group's members, else
/// among every member, else "unknown".
pub open spec fn poster_of(member_id: Option<u32>, members: Map<u32, String>, all_members: Map<u32, String>) -> Seq<char> {
    match member_id {
        None => unknown_poster(),
        Some(id) => match visible_name(members, id) {
            Some(n) => n,
            None => match visible_name(all_members, id) {
                Some(n) => n,
                None => unknown_poster(),
            },
        },
    }
}

fn find_name(names: &HashMap<u32, String>, id: u32) -> (r: Option<String>)
    ensures
        opt_view(r) == visible_name(names@, id),
{
    broadcast use vstd::std_specs::hash::group_hash_axioms;

    match names.get(&id) {
        Some(name) => {
            if is_blank(name.as_str()) {
                None
            } else {
                Some(name.clone())
            }
        },
        None => None,
    }
}

/// Who posted a message (see `poster_of`).
pub fn poster_name(member_id: Option<u32>, members: &HashMap<u32, String>, all_members: &HashMap<u32, String>) -> (r: String)
    ensures
        r@ == poster_of(member_id, members@, all_members@),
{
    match member_id {
        None => owned("unknown"),
        Some(id) => match find_name(members, id) {
            Some(n) => n,
            None => match find_name(all_members, id) {
                Some(n) => n,
                None => owned("unknown"),
            },
        },
    }
}

/// The kind of a message type and its number in file names.
pub open spec fn kind_of(message_type: Seq<char>) -> Option<(Kind, u32)> {
    if message_type == "text"@ {
        Some((Kind::Text, 0))
    } else if message_type == "picture"@ {
        Some((Kind::Picture, 1))
    } else if message_type == "video"@ {
        Some((Kind::Video, 2))
    } else if message_type == "voice"@ {
        Some((Kind::Voice, 3))
    } else if message_type == "link"@ {
        Some((Kind::Link, 4))
    } else {
        None
    }
}

fn message_kind(message_type: &str) -> (r: Option<(Kind, u32)>)
    ensures
        r == kind_of(message_type@),
{
    if same_text(message_type, "text") {
        Some((Kind::Text, 0))
    } else if same_text(message_type, "picture") {
        Some((Kind::Picture, 1))
    } else if same_text(message_type, "video") {
        Some((Kind::Video, 2))
    } else if same_text(message_type, "voice") {
        Some((Kind::Voice, 3))
    } else if same_text(message_type, "link") {
        Some((Kind::Link, 4))
    } else {
        None
    }
}

/// The files of a message of a kind, under a file name: texts and links are
/// saved as text, pictures as a picture and a caption, videos and voices as
/// a recording.
pub open spec fn kind_actions(kind: Kind, stem: Seq<char>, m: TimelineMessages) -> Seq<FileActionView> {
    match kind {
        Kind::Text => text_actions(stem, opt_view(m.text)),
        Kind::Link => text_actions(stem, opt_view(m.text)),
        Kind::Picture => media_actions(stem, opt_view(m.file), Extension::Jpg) + text_actions(
            stem,
            opt_view(m.text),
        ),
        Kind::Video => media_actions(stem, opt_view(m.file), Extension::Mp4),
        Kind::Voice => media_actions(stem, opt_view(m.file), Extension::Mp4),
    }
}

pub open spec fn unknown_type_text(message_type: Seq<char>) -> Seq<char> {
    "unknown type: "@ + message_type
}

fn contains_kind(kinds: &Vec<Kind>, k: Kind) -> (r: bool)
    ensures
        r == kinds@.contains(k),
{
    let n = kinds.len();
    for i in 0..n
        invariant
            n == kinds.len(),
            forall|j: int| 0 <= j < i ==> kinds@[j] != k,
    {
        if kinds[i] == k {
            return true;
        }
    }
    false
}

/// What saving one message writes (the files' views, in order), or the text
/// of its error (see `plan_message`).
pub open spec fn message_plan(
    m: TimelineMessages,
    id_dates: Seq<IdDate>,
    members: Map<u32, String>,
    all_members: Map<u32, String>,
    kinds: Seq<Kind>,
) -> core::result::Result<Seq<FileActionView>, Seq<char>> {
    if saved_ids(id_dates).contains(m.id) {
        Ok(Seq::empty())
    } else {
        match kind_of(m.messages_type@) {
            None => Err(unknown_type_text(m.messages_type@)),
            Some((k, media)) => if !kinds.contains(k) {
                Ok(Seq::empty())
            } else {
                match chrono_parse(m.updated_at@, api_format()) {
                    Err(_) => Err(date_error_text(m.updated_at@)),
                    Ok(dt) => Ok(
                        kind_actions(
                            k,
                            file_stem(
                                m.id,
                                media,
                                chrono_format(dt, compact_format()),
                                poster_of(m.member_id, members, all_members),
                            ),
                            m,
                        ),
                    ),
                }
            },
        }
    }
}

/// What saving one message of the timeline writes, in order. A message that
/// is already saved is left alone (no request, no overwrite); a kind that was
/// not asked for is left alone too; an unknown type or an unreadable date is
/// an error.
pub fn plan_message(
    message: &TimelineMessages,
    id_dates: &Vec<IdDate>,
    members: &HashMap<u32, String>,
    all_members: &HashMap<u32, String>,
    kinds: &Vec<Kind>,
) -> (r: core::result::Result<Vec<FileAction>, Error>)
    ensures
        saved_ids(id_dates@).contains(message.id) ==> r is Ok && r->Ok_0@.len() == 0,
        !saved_ids(id_dates@).contains(message.id) ==> match kind_of(message.messages_type@) {
            None => r is Err && r->Err_0 is Msg && r->Err_0.text() == unknown_type_text(
                message.messages_type@,
            ),
            Some((k, media)) => if !kinds@.contains(k) {
                r is Ok && r->Ok_0@.len() == 0
            } else {
                match chrono_parse(message.updated_at@, api_format()) {
                    Err(_) => r is Err && r->Err_0 is Msg && r->Err_0.text() == date_error_text(
                        message.updated_at@,
                    ),
                    Ok(dt) => (dt.plain() ==> chrono_format(dt, compact_format()) == compact_text(dt))
                        && r is Ok && actions_view(r->Ok_0@) == kind_actions(
                        k,
                        file_stem(
                            message.id,
                            media,
                            chrono_format(dt, compact_format()),
                            poster_of(message.member_id, members@, all_members@),
                        ),
                        *message,
                    ),
                }
            },
        },
        match message_plan(*message, id_dates@, members@, all_members@, kinds@) {
            Ok(a) => r is Ok && actions_view(r->Ok_0@) == a,
            Err(t) => r is Err && r->Err_0 is Msg && r->Err_0.text() == t,
        },
{
    if is_saved(id_dates, message.id) {
        return Ok(Vec::new());
    }
    let (kind, media) = match message_kind(message.messages_type.as_str()) {
        Some(km) => km,
        None => {
            let mut m = owned("unknown type: ");
            push_all(&mut m, message.messages_type.as_str());
            return Err(Error::Msg(m));
        },
    };
    if !contains_kind(kinds, kind) {
        return Ok(Vec::new());
    }
    let poster = poster_name(message.member_id, members, all_members);
    let name = match file_name(message.id, media, message.updated_at.as_str(), poster.as_str()) {
        Ok(n) => n,
        Err(e) => return Err(e),
    };
    match kind {
        Kind::Text => Ok(Text::new(name, message.text.clone()).save()),
        Kind::Link => Ok(Text::new(name, message.text.clone()).save()),
        Kind::Picture => Ok(Picture::new(name, message.text.clone(), message.file.clone()).save()),
        Kind::Video => Ok(Video::new(name, message.file.clone()).save()),
        Kind::Voice => Ok(Voice::new(name, message.file.clone()).save()),
    }
}

/// What saving the messages of a page writes, in order, and the text of the
/// error that stops it, if any: the files of every message before the first
/// one that fails.
pub open spec fn page_plan(
    ms: Seq<TimelineMessages>,
    id_dates: Seq<IdDate>,
    members: Map<u32, String>,
    all_members: Map<u32, String>,
    kinds: Seq<Kind>,
) -> (Seq<FileActionView>, Option<Seq<char>>)
    decreases ms.len(),
{
    if ms.len() == 0 {
        (Seq::empty(), None)
    } else {
        let before = page_plan(ms.drop_last(), id_dates, members, all_members, kinds);
        if before.1 is Some {
            before
        } else {
            match message_plan(ms.last(), id_dates, members, all_members, kinds) {
                Ok(a) => (before.0 + a, None),
                Err(t) => (before.0, Some(t)),
            }
        }
    }
}

/// Once a message fails, the rest of the page changes nothing.
proof fn lemma_page_plan_stops(
    ms: Seq<TimelineMessages>,
    i: int,
    id_dates: Seq<IdDate>,
    members: Map<u32, String>,
    all_members: Map<u32, String>,
    kinds: Seq<Kind>,
)
    requires
        0 <= i <= ms.len(),
        page_plan(ms.take(i), id_dates, members, all_members, kinds).1 is Some,
    ensures
        page_plan(ms, id_dates, members, all_members, kinds) == page_plan(
            ms.take(i),
            id_dates,
            members,
            all_members,
            kinds,
        ),
    decreases ms.len() - i,
{
    if i == ms.len() {
        assert(ms.take(i) =~= ms);
    } else {
        let next = ms.take(i + 1);
        assert(next.drop_last() =~= ms.take(i));
        lemma_page_plan_stops(ms, i + 1, id_dates, members, all_members, kinds);
    }
}

/// What saving the messages of a page writes (see `page_plan`): the files of
/// every message before the first that fails, and that failure.
pub fn plan_page(
    messages: &Vec<TimelineMessages>,
    id_dates: &Vec<IdDate>,
    members: &HashMap<u32, String>,
    all_members: &HashMap<u32, String>,
    kinds: &Vec<Kind>,
) -> (r: (Vec<FileAction>, Option<Error>))
    ensures
        actions_view(r.0@) == page_plan(messages@, id_dates@, members@, all_members@, kinds@).0,
        match page_plan(messages@, id_dates@, members@, all_members@, kinds@).1 {
            None => r.1 is None,
            Some(t) => r.1 matches Some(e) && e is Msg && e.text() == t,
        },
{
    let mut acc: Vec<FileAction> = Vec::new();
    let n = messages.len();
    for i in 0..n
        invariant
            n == messages.len(),
            actions_view(acc@) == page_plan(messages@.take(i as int), id_dates@, members@, all_members@, kinds@).0,
            page_plan(messages@.take(i as int), id_dates@, members@, all_members@, kinds@).1 is None,
    {
        let ghost prefix = messages@.take(i + 1);
        assert(prefix.drop_last() =~= messages@.take(i as int));
        assert(prefix.last() == messages@[i as int]);
        match plan_message(&messages[i], id_dates, members, all_members, kinds) {
            Ok(mut actions) => {
                let ghost a = actions_view(acc@);
                let ghost b = actions_view(actions@);
                acc.append(&mut actions);
                assert(actions_view(acc@) =~= a + b);
            },
            Err(e) => {
                proof {
                    lemma_page_plan_stops(messages@, i + 1, id_dates@, members@, all_members@, kinds@);
                }
                return (acc, Some(e));
            },
        }
    }
    assert(messages@.take(n as int) =~= messages@);
    (acc, None)
}

/// A saved message that the file names tell of counts as saved: its id is
/// among `saved_ids`, which is what `plan_message` looks at.
pub proof fn lemma_found_is_saved(v: Seq<IdDate>, id: u32, date: Seq<char>)
    requires
        id_dates_view(v).contains((id, date)),
    ensures
        saved_ids(v).contains(id),
{
    let k = choose|k: int| 0 <= k < id_dates_view(v).len() && id_dates_view(v)[k] == (id, date);
    assert(saved_ids(v)[k] == id);
}

/// Running again over messages that are all saved writes nothing and fails
/// on nothing. With `id_dates_from_names`, which finds every file that this
/// library wrote, and `lemma_file_name_read_back`, this makes a second run
/// over the same messages leave the saved files as they are.
pub proof fn lemma_rerun_writes_nothing(
    ms: Seq<TimelineMessages>,
    id_dates: Seq<IdDate>,
    members: Map<u32, String>,
    all_members: Map<u32, String>,
    kinds: Seq<Kind>,
)
    requires
        forall|i: int| 0 <= i < ms.len() ==> saved_ids(id_dates).contains(#[trigger] ms[i].id),
    ensures
        page_plan(ms, id_dates, members, all_members, kinds).0.len() == 0,
        page_plan(ms, id_dates, members, all_members, kinds).1 is None,
    decreases ms.len(),
{
    if ms.len() > 0 {
        let t = ms.drop_last();
        assert forall|i: int| 0 <= i < t.len() implies saved_ids(id_dates).contains(#[trigger] t[i].id) by {
            assert(t[i] == ms[i]);
        }
        lemma_rerun_writes_nothing(t, id_dates, members, all_members, kinds);
        assert(saved_ids(id_dates).contains(ms[ms.len() - 1].id));
    }
}

// ----------------------------------------------------------------------------
// The timeline, page by page
// ----------------------------------------------------------------------------

/// What to do with a page of the timeline.
pub enum PageStep {
    /// Every message of the full page has one update time, so the page does
    /// not tell where to go on from: ask again for more messages, saving nothing.
    Expand { count: usize },
    /// Save the page's messages; it is the last page.
    SaveAndFinish,
    /// Save the page's messages, then read on from this update time with the
    /// default page size.
    SaveAndAdvance { fromdate: String },
    /// Save the page's messages, then stop with `error`: the page's latest
    /// update time is not after the one asked from.
    SaveAndStall { error: Error },
}

/// Whether every message of the page has the first one's update time.
pub open spec fn all_updated_same(ms: Seq<TimelineMessages>) -> bool {
    forall|i: int| 0 <= i < ms.len() ==> #[trigger] ms[i].updated_at@ == ms[0].updated_at@
}

/// The latest update time of a non-empty page, in `String`'s order.
pub open spec fn latest_updated(ms: Seq<TimelineMessages>) -> Seq<char>
    decreases ms.len(),
{
    if ms.len() <= 1 {
        ms[0].updated_at@
    } else {
        let rest = latest_updated(ms.drop_last());
        if str_less(ms.last().updated_at@, rest) { rest } else { ms.last().updated_at@ }
    }
}

/// The step for a page of `messages`, asked for from `fromdate` with `count`
/// messages at most.
pub open spec fn page_step_spec(fromdate: Seq<char>, count: int, ms: Seq<TimelineMessages>) -> (
    int,
    int,
    Seq<char>,
) {
    // (step, new count, new fromdate): step 0 expand, 1 finish, 2 advance, 3 stall
    if ms.len() >= count && all_updated_same(ms) {
        (0, count + DEFAULT_COUNT, fromdate)
    } else if ms.len() < count {
        (1, count, fromdate)
    } else if str_less(fromdate, latest_updated(ms)) {
        (2, DEFAULT_COUNT as int, latest_updated(ms))
    } else {
        (3, count, fromdate)
    }
}

fn all_same(messages: &Vec<TimelineMessages>) -> (r: bool)
    requires
        messages.len() > 0,
    ensures
        r == all_updated_same(messages@),
{
    let first = &messages[0].updated_at;
    let n = messages.len();
    for i in 0..n
        invariant
            n == messages.len(),
            n > 0,
            *first == messages@[0].updated_at,
            forall|j: int| 0 <= j < i ==> #[trigger] messages@[j].updated_at@ == messages@[0].updated_at@,
    {
        if messages[i].updated_at != *first {
            return false;
        }
    }
    true
}

fn latest(messages: &Vec<TimelineMessages>) -> (r: String)
    requires
        messages.len() > 0,
    ensures
        r@ == latest_updated(messages@),
{
    let mut best = messages[0].updated_at.clone();
    let n = messages.len();
    assert(messages@.take(1) =~= seq![messages@[0]]);
    for i in 1..n
        invariant
            n == messages.len(),
            n > 0,
            best@ == latest_updated(messages@.take(i as int)),
    {
        let ghost prefix = messages@.take(i + 1);
        assert(prefix.drop_last() =~= messages@.take(i as int));
        assert(prefix.last() == messages@[i as int]);
        if !less(messages[i].updated_at.as_str(), best.as_str()) {
            best = messages[i].updated_at.clone();
        }
    }
    assert(messages@.take(n as int) =~= messages@);
    best
}

/// The error of a timeline that does not move on.
pub open spec fn stalled_text() -> Seq<char> {
    "timeline did not advance"@
}

/// Decides what to do with a page of the timeline (see `PageStep`).
pub fn page_step(fromdate: &String, count: usize, messages: &Vec<TimelineMessages>) -> (r: PageStep)
    requires
        count + DEFAULT_COUNT <= usize::MAX,
    ensures
        page_step_spec(fromdate@, count as int, messages@).0 == 0 <==> r is Expand,
        page_step_spec(fromdate@, count as int, messages@).0 == 1 <==> r is SaveAndFinish,
        page_step_spec(fromdate@, count as int, messages@).0 == 2 <==> r is SaveAndAdvance,
        page_step_spec(fromdate@, count as int, messages@).0 == 3 <==> r is SaveAndStall,
        r matches PageStep::Expand { count: c } ==> c == page_step_spec(fromdate@, count as int, messages@).1,
        r matches PageStep::SaveAndAdvance { fromdate: f } ==> f@ == page_step_spec(
            fromdate@,
            count as int,
            messages@,
        ).2,
        r matches PageStep::SaveAndStall { error } ==> error is Msg && error.text() == stalled_text(),
{
    let n = messages.len();
    if n >= count && n > 0 && all_same(messages) {
        return PageStep::Expand { count: count + DEFAULT_COUNT };
    }
    if n >= count && n == 0 {
        // An empty page that is full (count 0) has every message alike.
        assert(all_updated_same(messages@));
        return PageStep::Expand { count: count + DEFAULT_COUNT };
    }
    if n < count {
        return PageStep::SaveAndFinish;
    }
    let next = latest(messages);
    if less(fromdate.as_str(), next.as_str()) {
        PageStep::SaveAndAdvance { fromdate: next }
    } else {
        PageStep::SaveAndStall { error: Error::msg("timeline did not advance") }
    }
}

/// Reading the timeline makes progress: a page that moves the position on
/// moves it to a strictly later update time, and asks for the default page
/// size again; a page that is expanded asks for more messages than before.
pub proof fn lemma_page_step_progress(fromdate: Seq<char>, count: int, ms: Seq<TimelineMessages>)
    ensures
        page_step_spec(fromdate, count, ms).0 == 2 ==> str_less(fromdate, page_step_spec(fromdate, count, ms).2)
            && page_step_spec(fromdate, count, ms).1 == DEFAULT_COUNT,
        page_step_spec(fromdate, count, ms).0 == 0 ==> page_step_spec(fromdate, count, ms).1 > count,
        page_step_spec(fromdate, count, ms).0 == 3 ==> !str_less(fromdate, latest_updated(ms)),
{
}

// ----------------------------------------------------------------------------
// The results of every member
// ----------------------------------------------------------------------------

/// The line that reports a member's error.
pub open spec fn member_error_line(name: Seq<char>, e: Error) -> Seq<char> {
    name + ": "@ + e.text()
}

/// The lines of the members that failed, in order.
pub open spec fn member_error_lines(results: Seq<(String, core::result::Result<(), Error>)>) -> Seq<Seq<char>>
    decreases results.len(),
{
    if results.len() == 0 {
        Seq::empty()
    } else {
        let rest = member_error_lines(results.drop_last());
        match results.last().1 {
            Err(e) => rest.push(member_error_line(results.last().0@, e)),
            Ok(_) => rest,
        }
    }
}

/// Lines joined by line breaks.
pub open spec fn joined_lines(lines: Seq<Seq<char>>) -> Seq<char>
    decreases lines.len(),
{
    if lines.len() == 0 {
        Seq::empty()
    } else if lines.len() == 1 {
        lines[0]
    } else {
        joined_lines(lines.drop_last()) + seq!['\n'] + lines.last()
    }
}

pub open spec fn is_unauthorized_result(r: core::result::Result<(), Error>) -> bool {
    r matches Err(e) && e.unauthorized()
}

/// The first member whose authorization was refused, if any.
pub open spec fn first_unauthorized(results: Seq<(String, core::result::Result<(), Error>)>) -> Option<int> {
    if exists|i: int| 0 <= i < results.len() && is_unauthorized_result(#[trigger] results[i].1) {
        Some(
            choose|i: int|
                0 <= i < results.len() && is_unauthorized_result(#[trigger] results[i].1) && (forall|j: int|
                    0 <= j < i ==> !is_unauthorized_result(#[trigger] results[j].1)),
        )
    } else {
        None
    }
}

pub open spec fn members_failure_text(lines: Seq<Seq<char>>) -> Seq<char> {
    "failed to save messages for members:\n"@ + joined_lines(lines)
}

/// The result of saving every member, from each member's name and result:
/// a refused authorization (the first one) stops the service, so that it can
/// be retried with a fresh token; else every other error is reported, one
/// line per member; else the service succeeded.
pub fn combine_member_results(member_results: Vec<(String, core::result::Result<(), Error>)>) -> (r: core::result::Result<(), Error>)
    ensures
        match first_unauthorized(member_results@) {
            Some(k) => r is Err && r->Err_0 == member_results@[k].1->Err_0,
            None => if member_error_lines(member_results@).len() == 0 {
                r is Ok
            } else {
                r is Err && r->Err_0 is Msg && r->Err_0.text() == members_failure_text(
                    member_error_lines(member_results@),
                )
            },
        },
{
    let ghost given = member_results@;
    let mut results = member_results;
    let n = results.len();
    let mut lines: Vec<String> = Vec::new();
    for i in 0..n
        invariant
            n == results.len(),
            given == member_results@,
            results@ == given,
            forall|j: int| 0 <= j < i ==> !is_unauthorized_result(#[trigger] given[j].1),
            lines@.map_values(|s: String| s@) == member_error_lines(given.take(i as int)),
    {
        assert(given.take(i + 1).drop_last() =~= given.take(i as int));
        assert(given.take(i + 1).last() == given[i as int]);
        let unauthorized = match &results[i].1 {
            Err(e) => e.is_unauthorized(),
            Ok(()) => false,
        };
        if unauthorized {
            let removed = results.remove(i);
            assert(removed == given[i as int]);
            let result = removed.1;
            proof {
                assert(is_unauthorized_result(given[i as int].1));
                let ii = i as int;
                assert(0 <= ii < given.len() && is_unauthorized_result(given[ii].1) && (forall|j: int|
                    0 <= j < ii ==> !is_unauthorized_result(#[trigger] given[j].1)));
                let k = first_unauthorized(given)->0;
                assert(0 <= k < given.len() && is_unauthorized_result(given[k].1));
                if k < i {
                    assert(!is_unauthorized_result(given[k].1));
                }
                if k > i {
                    assert(!is_unauthorized_result(given[i as int].1));
                }
                assert(k == ii);
                assert(result == given[ii].1);
                assert(result is Err);
                assert(first_unauthorized(given) == Some(ii));
                assert(result->Err_0 == given[k].1->Err_0);
            }
            return result;
        }
        match &results[i].1 {
            Err(e) => {
                let mut line = results[i].0.clone();
                push_all(&mut line, ": ");
                let text = e.message();
                push_all(&mut line, text.as_str());
                let ghost before = lines@;
                lines.push(line);
                assert(lines@.map_values(|s: String| s@) =~= before.map_values(|s: String| s@).push(
                    member_error_line(given[i as int].0@, given[i as int].1->Err_0),
                ));
            },
            Ok(()) => {},
        }
    }
    assert(given.take(n as int) =~= given);
    assert(first_unauthorized(given) is None);
    if lines.len() == 0 {
        return Ok(());
    }
    let mut text = owned("failed to save messages for members:\n");
    let ghost start = text@;
    let m = lines.len();
    for i in 0..m
        invariant
            m == lines.len(),
            m > 0,
            start == "failed to save messages for members:\n"@,
            i == 0 ==> text@ == start,
            i > 0 ==> text@ == start + joined_lines(lines@.map_values(|s: String| s@).take(i as int)),
    {
        let ghost ls = lines@.map_values(|s: String| s@);
        assert(ls.take(i + 1).drop_last() =~= ls.take(i as int));
        if i > 0 {
            push_all(&mut text, "\n");
            proof {
                reveal_strlit("\n");
            }
        }
        push_all(&mut text, lines[i].as_str());
        proof {
            if i == 0 {
                assert(ls.take(1).len() == 1);
                assert(text@ =~= start + joined_lines(ls.take(1)));
            } else {
                assert(text@ =~= start + joined_lines(ls.take(i + 1)));
            }
        }
    }
    assert(lines@.map_values(|s: String| s@).take(m as int) =~= lines@.map_values(|s: String| s@));
    Err(Error::Msg(text))
}

/// What is written is read back: the name of a message's files, with any
/// extension after it, has the shape of a saved name whose id part reads as
/// the message's id and whose date part is the compact date (a date with a
/// four-digit year, no leap second). `dir_entry_to_id_date` gives back the
/// id and date of every name of that shape.
pub proof fn lemma_file_name_read_back(id: u32, media: u32, dt: DateTimeParts, poster: Seq<char>, extension: Seq<char>)
    requires
        media < 10,
        dt.valid(),
        dt.plain(),
    ensures
        saved_name_shape(
            file_stem(id, media, compact_text(dt), poster) + extension,
            decimal(id as nat),
            digit_char(media as nat),
            compact_text(dt),
            seq!['_'] + poster + extension,
        ),
        digits_value(decimal(id as nat)) as u32 == id,
        parsed_u32(decimal(id as nat)) == Some(id),
{
    lemma_decimal_digits(id as nat);
    lemma_decimal_digits(media as nat);
    lemma_compact_text_digits(dt);
    assert(decimal(media as nat) =~= seq![digit_char(media as nat)]);
    let name = file_stem(id, media, compact_text(dt), poster) + extension;
    assert(name =~= decimal(id as nat) + seq!['_', digit_char(media as nat), '_'] + compact_text(dt)
        + (seq!['_'] + poster + extension));
    let d = decimal(id as nat);
    assert(d.len() >= 1 && is_ascii_digit(d[0]));
    assert(d[0] != '+');
}

} // verus!
