//! Matches of a regular expression in a text, as trees of nested capture
//! groups.
use vstd::prelude::*;
use crate::text::push_decimal;

verus! {

/// A match (or a capture group inside one) covering the byte offsets
/// `start_offset..end_offset`, with the groups nested inside it.
pub struct RegexMatchGrp {
    pub start_offset: usize,
    pub end_offset: usize,
    /// The group's name, or `group N` for an unnamed group; empty for a whole match.
    pub label: String,
    pub groups: Vec<RegexMatchGrp>,
}

/// Model of a match tree.
pub struct MatchV {
    pub start: usize,
    pub end: usize,
    pub label: Seq<char>,
    pub groups: Seq<MatchV>,
}

pub open spec fn match_view(m: RegexMatchGrp) -> MatchV
    decreases m,
{
    MatchV { start: m.start_offset, end: m.end_offset, label: m.label@, groups: matches_view(m.groups@) }
}

pub open spec fn matches_view(s: Seq<RegexMatchGrp>) -> Seq<MatchV>
    decreases s,
{
    Seq::new(
        s.len(),
        |i: int|
            if 0 <= i < s.len() {
                match_view(s[i])
            } else {
                MatchV { start: 0, end: 0, label: Seq::empty(), groups: Seq::empty() }
            },
    )
}

impl View for RegexMatchGrp {
    type V = MatchV;

    open spec fn view(&self) -> MatchV {
        match_view(*self)
    }
}

/// `outer` covers all of `inner`.
pub open spec fn covers(outer: MatchV, inner: MatchV) -> bool {
    outer.start <= inner.start && inner.end <= outer.end
}

pub open spec fn covers_offset(m: MatchV, offset: usize) -> bool {
    m.start <= offset < m.end
}

/// Index of the first group that covers `c` (the length when none does).
pub open spec fn first_covering(s: Seq<MatchV>, c: MatchV) -> nat
    decreases s.len(),
{
    if s.len() == 0 {
        0
    } else if covers(s[0], c) {
        0
    } else {
        1 + first_covering(s.drop_first(), c)
    }
}

/// Index of the first group that covers `offset` (the length when none does).
pub open spec fn first_covering_offset(s: Seq<MatchV>, offset: usize) -> nat
    decreases s.len(),
{
    if s.len() == 0 {
        0
    } else if covers_offset(s[0], offset) {
        0
    } else {
        1 + first_covering_offset(s.drop_first(), offset)
    }
}

/// `c` placed into the tree `m`: into the first group that covers it
/// (recursively), else appended as a new group of `m`.
pub open spec fn insert_group(m: MatchV, c: MatchV) -> MatchV
    decreases m,
{
    let k = first_covering(m.groups, c);
    if k < m.groups.len() {
        MatchV { groups: m.groups.update(k as int, insert_group(m.groups[k as int], c)), ..m }
    } else {
        MatchV { groups: m.groups.push(c), ..m }
    }
}

/// The chain of groups from `m` down to the innermost group covering
/// `offset`, following at each level the first group that covers it; empty
/// when `m` does not cover `offset`.
pub open spec fn group_path(m: MatchV, offset: usize) -> Seq<MatchV>
    decreases m,
{
    if !covers_offset(m, offset) {
        Seq::empty()
    } else {
        let k = first_covering_offset(m.groups, offset);
        if k < m.groups.len() {
            seq![m] + group_path(m.groups[k as int], offset)
        } else {
            seq![m]
        }
    }
}

proof fn lemma_first_covering(s: Seq<MatchV>, c: MatchV)
    ensures
        first_covering(s, c) <= s.len(),
        first_covering(s, c) < s.len() ==> covers(s[first_covering(s, c) as int], c),
        forall|j: int| 0 <= j < first_covering(s, c) ==> !covers(#[trigger] s[j], c),
    decreases s.len(),
{
    if s.len() > 0 && !covers(s[0], c) {
        lemma_first_covering(s.drop_first(), c);
        assert forall|j: int| 0 <= j < first_covering(s, c) implies !covers(#[trigger] s[j], c) by {
            if j > 0 {
                assert(s[j] == s.drop_first()[j - 1]);
            }
        }
    }
}

pub(crate) proof fn lemma_first_covering_offset(s: Seq<MatchV>, offset: usize)
    ensures
        first_covering_offset(s, offset) <= s.len(),
        first_covering_offset(s, offset) < s.len() ==> covers_offset(
            s[first_covering_offset(s, offset) as int],
            offset,
        ),
        forall|j: int| 0 <= j < first_covering_offset(s, offset) ==> !covers_offset(#[trigger] s[j], offset),
    decreases s.len(),
{
    if s.len() > 0 && !covers_offset(s[0], offset) {
        lemma_first_covering_offset(s.drop_first(), offset);
        assert forall|j: int| 0 <= j < first_covering_offset(s, offset) implies !covers_offset(
            #[trigger] s[j],
            offset,
        ) by {
            if j > 0 {
                assert(s[j] == s.drop_first()[j - 1]);
            }
        }
    }
}

pub(crate) proof fn lemma_group_decreases(m: RegexMatchGrp, i: int)
    requires
        0 <= i < m.groups@.len(),
    ensures
        decreases_to!(m => m.groups@[i]),
{
    broadcast use vstd::std_specs::vec::group_vec_axioms;
    assert(decreases_to!(m => m.groups));
    assert(decreases_to!(m.groups => m.groups@));
    assert(decreases_to!(m.groups@ => m.groups@[i]));
}

impl RegexMatchGrp {
    fn contains(&self, other: &RegexMatchGrp) -> (r: bool)
        ensures
            r == covers(self@, other@),
    {
        self.start_offset <= other.start_offset && other.end_offset <= self.end_offset
    }

    /// Whether `offset` lies inside this match.
    pub fn contains_offset(&self, offset: usize) -> (r: bool)
        ensures
            r == covers_offset(self@, offset),
    {
        offset >= self.start_offset && offset < self.end_offset
    }

    /// Places `child` into the first group that covers it (recursively), or
    /// appends it to this match's groups when none does.
    pub fn insert(&mut self, child: RegexMatchGrp)
        ensures
            final(self)@ == insert_group(old(self)@, child@),
        decreases old(self)@,
    {
        let ghost gv = matches_view(self.groups@);
        let mut k: usize = 0;
        while k < self.groups.len()
            invariant
                k <= self.groups.len(),
                gv == matches_view(self.groups@),
                forall|j: int| 0 <= j < k ==> !covers(#[trigger] gv[j], child@),
            ensures
                k <= self.groups.len(),
                gv == matches_view(self.groups@),
                forall|j: int| 0 <= j < k ==> !covers(#[trigger] gv[j], child@),
                k < self.groups.len() ==> covers(gv[k as int], child@),
            decreases self.groups.len() - k,
        {
            if self.groups[k].contains(&child) {
                assert(gv[k as int] == self.groups@[k as int]@);
                break;
            }
            k += 1;
        }
        proof {
            lemma_first_covering(gv, child@);
            assert(first_covering(gv, child@) == k as nat) by {
                if first_covering(gv, child@) < k {
                    assert(!covers(gv[first_covering(gv, child@) as int], child@));
                } else if first_covering(gv, child@) > k {
                    assert(!covers(gv[k as int], child@));
                }
            }
        }
        if k < self.groups.len() {
            let mut sub = self.groups.remove(k);
            let ghost before = self.groups@;
            let ghost subv = sub@;
            proof {
                assert(subv == gv[k as int]);
                let ov = old(self)@;
                assert(ov.groups == gv);
                assert(decreases_to!(ov => ov.groups));
                assert(decreases_to!(ov.groups => ov.groups[k as int]));
            }
            sub.insert(child);
            self.groups.insert(k, sub);
            proof {
                assert(matches_view(self.groups@) =~= gv.update(k as int, insert_group(subv, child@)));
            }
        } else {
            let ghost cv = child@;
            self.groups.push(child);
            assert(matches_view(self.groups@) =~= gv.push(cv));
        }
    }

    /// The chain of groups from this match down to the innermost group that
    /// covers `offset`; empty when this match does not cover it.
    pub fn find_group_path(&self, offset: usize) -> (r: Vec<&RegexMatchGrp>)
        ensures
            r@.map_values(|g: &RegexMatchGrp| g@) == group_path(self@, offset),
        decreases self,
    {
        if !self.contains_offset(offset) {
            let r: Vec<&RegexMatchGrp> = Vec::new();
            assert(r@.map_values(|g: &RegexMatchGrp| g@) =~= Seq::<MatchV>::empty());
            return r;
        }
        let mut path: Vec<&RegexMatchGrp> = Vec::new();
        path.push(self);
        let ghost gv = matches_view(self.groups@);
        let mut k: usize = 0;
        while k < self.groups.len()
            invariant
                k <= self.groups.len(),
                gv == matches_view(self.groups@),
                path@.map_values(|g: &RegexMatchGrp| g@) == seq![self@],
                covers_offset(self@, offset),
                forall|j: int| 0 <= j < k ==> !covers_offset(#[trigger] gv[j], offset),
            decreases self.groups.len() - k,
        {
            if self.groups[k].contains_offset(offset) {
                proof {
                    assert(gv[k as int] == self.groups@[k as int]@);
                    assert(covers_offset(gv[k as int], offset));
                    lemma_first_covering_offset(gv, offset);
                    assert(first_covering_offset(gv, offset) == k as nat) by {
                        if first_covering_offset(gv, offset) < k {
                            assert(!covers_offset(gv[first_covering_offset(gv, offset) as int], offset));
                        } else if first_covering_offset(gv, offset) > k {
                            assert(!covers_offset(gv[k as int], offset));
                        }
                    }
                    lemma_group_decreases(*self, k as int);
                }
                let mut rest = self.groups[k].find_group_path(offset);
                let ghost pv = path@;
                let ghost rv = rest@;
                path.append(&mut rest);
                proof {
                    assert(path@ =~= pv + rv);
                    assert(path@.map_values(|g: &RegexMatchGrp| g@) =~= pv.map_values(
                        |g: &RegexMatchGrp| g@,
                    ) + rv.map_values(|g: &RegexMatchGrp| g@));
                    assert(self@.groups == gv);
                    assert(group_path(self@, offset) == seq![self@] + group_path(gv[k as int], offset));
                    assert(path@.map_values(|g: &RegexMatchGrp| g@) =~= group_path(self@, offset));
                }
                return path;
            }
            k += 1;
        }
        proof {
            lemma_first_covering_offset(gv, offset);
            assert(first_covering_offset(gv, offset) == gv.len()) by {
                if first_covering_offset(gv, offset) < gv.len() {
                    assert(!covers_offset(gv[first_covering_offset(gv, offset) as int], offset));
                }
            }
        }
        path
    }
}


// ---------------------------------------------------------------------------
// Running a regular expression
// ---------------------------------------------------------------------------

#[verifier::external_type_specification]
#[verifier::external_body]
pub struct ExBytesRegex(regex::bytes::Regex);

/// A regular expression compiled by the `regex` crate, with the pattern it
/// was compiled from.
pub struct CompiledRegex {
    pattern: String,
    re: regex::bytes::Regex,
}

impl View for CompiledRegex {
    type V = Seq<char>;

    /// The pattern this regular expression was compiled from.
    closed spec fn view(&self) -> Seq<char> {
        self.pattern@
    }
}

/// Whether `regex::bytes::Regex::new` accepts the pattern.
pub uninterp spec fn regex_compiles(pattern: Seq<char>) -> bool;

/// The offsets of every capture group (group 0 being the whole match) of
/// each successive match that `regex::bytes::Regex::captures_iter` yields
/// for the pattern over the text's bytes.
pub uninterp spec fn regex_captures(pattern: Seq<char>, text: Seq<char>) -> Seq<Seq<Option<(usize, usize)>>>;

/// The names of the capture groups (`None` for unnamed ones, group 0
/// included) that `regex::bytes::Regex::capture_names` yields.
pub uninterp spec fn regex_group_names(pattern: Seq<char>) -> Seq<Option<Seq<char>>>;

/// Compiles `pattern` with `regex::bytes::Regex::new`. Trusted: succeeds
/// exactly when the crate accepts the pattern, and then keeps the pattern.
#[verifier::external_body]
fn regex_new(pattern: &str) -> (r: Option<CompiledRegex>)
    ensures
        r is Some <==> regex_compiles(pattern@),
        r matches Some(c) ==> c@ == pattern@,
{
    match regex::bytes::Regex::new(pattern) {
        Ok(re) => Some(CompiledRegex { pattern: pattern.to_string(), re }),
        Err(_) => None,
    }
}

/// All matches of the regular expression in `text`
/// (`regex::bytes::Regex::captures_iter` over `text.as_bytes()`), each as
/// the offsets of its capture groups. Trusted: the result is what the crate
/// yields; as the crate documents, group 0 of every match is present and
/// every group starts no later than it ends. Which matches are found is not
/// stated beyond the name `regex_captures`.
#[verifier::external_body]
fn regex_captures_all(re: &CompiledRegex, text: &str) -> (r: Vec<Vec<Option<(usize, usize)>>>)
    ensures
        r@.len() == regex_captures(re@, text@).len(),
        forall|i: int| 0 <= i < r@.len() ==> #[trigger] r@[i]@ == regex_captures(re@, text@)[i],
        forall|i: int| 0 <= i < r@.len() ==> #[trigger] r@[i]@.len() >= 1 && r@[i]@[0] is Some,
        forall|i: int, j: int|
            0 <= i < r@.len() && 0 <= j < r@[i]@.len() && r@[i]@[j] is Some ==> #[trigger] r@[i]@[j]->Some_0.0
                <= r@[i]@[j]->Some_0.1,
{
    re.re.captures_iter(text.as_bytes()).map(|c| c.iter().map(|g| g.map(|m| (m.start(), m.end()))).collect()).collect()
}

/// The capture group names (`regex::bytes::Regex::capture_names`). Trusted:
/// the result is what the crate yields.
#[verifier::external_body]
fn regex_capture_names(re: &CompiledRegex) -> (r: Vec<Option<String>>)
    ensures
        names_view(r@) == regex_group_names(re@),
{
    re.re.capture_names().map(|n| n.map(|s| s.to_string())).collect()
}

pub open spec fn names_view(s: Seq<Option<String>>) -> Seq<Option<Seq<char>>> {
    s.map_values(
        |n: Option<String>|
            match n {
                Some(t) => Some(t@),
                None => None,
            },
    )
}

impl CompiledRegex {
    /// Compiles `pattern`; `None` when the `regex` crate rejects it.
    pub fn new(pattern: &str) -> (r: Option<CompiledRegex>)
        ensures
            r is Some <==> regex_compiles(pattern@),
            r matches Some(c) ==> c@ == pattern@,
    {
        regex_new(pattern)
    }
}

/// The label of capture group `i`: its name, or `group i` when unnamed.
pub open spec fn group_label(names: Seq<Option<Seq<char>>>, i: int) -> Seq<char> {
    if 0 <= i < names.len() && names[i] is Some {
        names[i]->Some_0
    } else {
        "group "@ + crate::text::decimal(i as nat)
    }
}

/// The match with groups `1..n` that took part inserted in order.
pub open spec fn insert_groups(
    root: MatchV,
    caps: Seq<Option<(usize, usize)>>,
    names: Seq<Option<Seq<char>>>,
    n: nat,
) -> MatchV
    decreases n,
{
    if n <= 1 {
        root
    } else {
        let m = insert_groups(root, caps, names, (n - 1) as nat);
        match caps[n - 1] {
            Some((s, e)) => insert_group(
                m,
                MatchV { start: s, end: e, label: group_label(names, n - 1), groups: Seq::empty() },
            ),
            None => m,
        }
    }
}

/// The tree of one match: the whole match (unlabelled) with each capture
/// group that took part inserted in order.
pub open spec fn match_tree(caps: Seq<Option<(usize, usize)>>, names: Seq<Option<Seq<char>>>) -> MatchV {
    let root = MatchV {
        start: caps[0]->Some_0.0,
        end: caps[0]->Some_0.1,
        label: Seq::empty(),
        groups: Seq::empty(),
    };
    insert_groups(root, caps, names, caps.len())
}

pub open spec fn match_trees(
    all: Seq<Seq<Option<(usize, usize)>>>,
    names: Seq<Option<Seq<char>>>,
) -> Seq<MatchV> {
    all.map_values(|c: Seq<Option<(usize, usize)>>| match_tree(c, names))
}

/// Builds the match trees from the capture offsets of each match and the
/// group names.
pub fn build_matches(captures: &Vec<Vec<Option<(usize, usize)>>>, names: &Vec<Option<String>>) -> (r: Vec<
    RegexMatchGrp,
>)
    requires
        forall|i: int| 0 <= i < captures@.len() ==> #[trigger] captures@[i]@.len() >= 1 && captures@[i]@[0] is Some,
    ensures
        matches_view(r@) == match_trees(captures@.map_values(|c: Vec<Option<(usize, usize)>>| c@), names_view(names@)),
{
    let ghost all = captures@.map_values(|c: Vec<Option<(usize, usize)>>| c@);
    let ghost nv = names_view(names@);
    let mut out: Vec<RegexMatchGrp> = Vec::new();
    let mut i: usize = 0;
    while i < captures.len()
        invariant
            i <= captures.len(),
            all == captures@.map_values(|c: Vec<Option<(usize, usize)>>| c@),
            nv == names_view(names@),
            forall|k: int| 0 <= k < captures@.len() ==> #[trigger] captures@[k]@.len() >= 1 && captures@[k]@[0] is Some,
            out.len() == i,
            forall|k: int| 0 <= k < i ==> #[trigger] out@[k]@ == match_tree(all[k], nv),
        decreases captures.len() - i,
    {
        let m = match_from_captures(&captures[i], names);
        out.push(m);
        i += 1;
    }
    proof {
        assert forall|k: int| 0 <= k < i implies match_view(out@[k]) == match_trees(all, nv)[k] by {
            assert(out@[k]@ == match_tree(all[k], nv));
        }
        assert(matches_view(out@) =~= match_trees(all, nv));
    }
    out
}

/// The label of capture group `i`.
fn label_for(names: &Vec<Option<String>>, i: usize) -> (r: String)
    ensures
        r@ == group_label(names_view(names@), i as int),
{
    if i < names.len() {
        match &names[i] {
            Some(n) => {
                return n.clone();
            },
            None => {},
        }
    }
    let mut t = String::from_str("group ");
    push_decimal(&mut t, i as u64);
    t
}

fn match_from_captures(caps: &Vec<Option<(usize, usize)>>, names: &Vec<Option<String>>) -> (r: RegexMatchGrp)
    requires
        caps@.len() >= 1,
        caps@[0] is Some,
    ensures
        r@ == match_tree(caps@, names_view(names@)),
{
    let (start, end) = match caps[0] {
        Some(p) => p,
        None => (0, 0),
    };
    let mut root = RegexMatchGrp { start_offset: start, end_offset: end, label: String::new(), groups: Vec::new() };
    proof {
        assert(matches_view(root.groups@) =~= Seq::<MatchV>::empty());
    }
    let mut i: usize = 1;
    while i < caps.len()
        invariant
            1 <= i <= caps.len(),
            caps@.len() >= 1,
            caps@[0] is Some,
            root@ == insert_groups(
                MatchV { start: caps@[0]->Some_0.0, end: caps@[0]->Some_0.1, label: Seq::empty(), groups: Seq::empty() },
                caps@,
                names_view(names@),
                i as nat,
            ),
        decreases caps.len() - i,
    {
        match caps[i] {
            Some((s, e)) => {
                let child = RegexMatchGrp { start_offset: s, end_offset: e, label: label_for(names, i), groups: Vec::new() };
                proof {
                    assert(matches_view(child.groups@) =~= Seq::<MatchV>::empty());
                }
                root.insert(child);
            },
            None => {},
        }
        i += 1;
    }
    root
}

/// All matches of `re` in `text`, each as a tree of its nested capture groups.
pub fn eval_regex(re: &CompiledRegex, text: &str) -> (r: Vec<RegexMatchGrp>)
    ensures
        matches_view(r@) == match_trees(regex_captures(re@, text@), regex_group_names(re@)),
{
    let names = regex_capture_names(re);
    let caps = regex_captures_all(re, text);
    let r = build_matches(&caps, &names);
    proof {
        assert(caps@.map_values(|c: Vec<Option<(usize, usize)>>| c@) =~= regex_captures(re@, text@));
    }
    r
}


// ---------------------------------------------------------------------------
// Laws of match trees
// ---------------------------------------------------------------------------

/// Every group lies inside the group (or match) it is nested in.
pub open spec fn nested(m: MatchV) -> bool
    decreases m,
{
    forall|i: int| 0 <= i < m.groups.len() ==> covers(m, #[trigger] m.groups[i]) && nested(m.groups[i])
}

/// Placing a group that lies inside a match keeps every group inside the
/// group it is nested in; the match keeps its span and label.
pub proof fn lemma_insert_nested(m: MatchV, c: MatchV)
    requires
        nested(m),
        nested(c),
        covers(m, c),
    ensures
        nested(insert_group(m, c)),
        insert_group(m, c).start == m.start,
        insert_group(m, c).end == m.end,
        insert_group(m, c).label == m.label,
    decreases m,
{
    let k = first_covering(m.groups, c);
    lemma_first_covering(m.groups, c);
    let r = insert_group(m, c);
    if k < m.groups.len() {
        let g = m.groups[k as int];
        assert(covers(m, g) && nested(g));
        lemma_insert_nested(g, c);
        assert forall|i: int| 0 <= i < r.groups.len() implies covers(r, #[trigger] r.groups[i]) && nested(r.groups[i]) by {
            if i != k {
                assert(r.groups[i] == m.groups[i]);
            }
        }
    } else {
        assert forall|i: int| 0 <= i < r.groups.len() implies covers(r, #[trigger] r.groups[i]) && nested(r.groups[i]) by {
            if i < m.groups.len() {
                assert(r.groups[i] == m.groups[i]);
            }
        }
    }
}

/// The path of group indices that `insert_group` follows down from `m`
/// before it appends `c`.
pub open spec fn landing_path(m: MatchV, c: MatchV) -> Seq<int>
    decreases m,
{
    let k = first_covering(m.groups, c);
    if k < m.groups.len() {
        seq![k as int] + landing_path(m.groups[k as int], c)
    } else {
        Seq::empty()
    }
}

/// The group reached from `m` by following the group indices of `path`.
pub open spec fn subtree_at(m: MatchV, path: Seq<int>) -> MatchV
    decreases path.len(),
{
    if path.len() == 0 {
        m
    } else if 0 <= path[0] < m.groups.len() {
        subtree_at(m.groups[path[0]], path.drop_first())
    } else {
        m
    }
}

/// At this level the path goes into group `k`, the first that covers `c`.
pub open spec fn descends_to_first(level: MatchV, k: int, c: MatchV) -> bool {
    &&& 0 <= k < level.groups.len()
    &&& covers(level.groups[k], c)
    &&& forall|j: int| 0 <= j < k ==> !covers(#[trigger] level.groups[j], c)
}

/// Where a placed group lands: its new parent is the group at the end of
/// `landing_path`, which covers it while none of that parent's earlier
/// groups does, and the group is appended as the parent's last group; at
/// every level on the way down, the group descended into is the first that
/// covers it.
pub proof fn lemma_insert_placement(m: MatchV, c: MatchV)
    requires
        covers(m, c),
    ensures
        covers(subtree_at(m, landing_path(m, c)), c),
        forall|j: int|
            0 <= j < subtree_at(m, landing_path(m, c)).groups.len() ==> !covers(
                #[trigger] subtree_at(m, landing_path(m, c)).groups[j],
                c,
            ),
        subtree_at(insert_group(m, c), landing_path(m, c)) == (MatchV {
            groups: subtree_at(m, landing_path(m, c)).groups.push(c),
            ..subtree_at(m, landing_path(m, c))
        }),
        forall|i: int|
            0 <= i < landing_path(m, c).len() ==> descends_to_first(
                #[trigger] subtree_at(m, landing_path(m, c).take(i)),
                landing_path(m, c)[i],
                c,
            ),
    decreases m,
{
    let k = first_covering(m.groups, c);
    lemma_first_covering(m.groups, c);
    let p = landing_path(m, c);
    let r = insert_group(m, c);
    if k < m.groups.len() {
        let g = m.groups[k as int];
        lemma_insert_placement(g, c);
        let q = landing_path(g, c);
        assert(p == seq![k as int] + q);
        assert(p.drop_first() =~= q);
        assert(subtree_at(m, p) == subtree_at(g, q));
        assert(r.groups[k as int] == insert_group(g, c));
        assert(subtree_at(r, p) == subtree_at(insert_group(g, c), q));
        assert forall|i: int| 0 <= i < p.len() implies descends_to_first(#[trigger] subtree_at(m, p.take(i)), p[i], c) by {
            if i == 0 {
                assert(p.take(0) =~= Seq::<int>::empty());
            } else {
                assert(p.take(i).drop_first() =~= q.take(i - 1));
                assert(p.take(i)[0] == k);
                assert(subtree_at(m, p.take(i)) == subtree_at(g, q.take(i - 1)));
                assert(p[i] == q[i - 1]);
                assert(descends_to_first(subtree_at(g, q.take(i - 1)), q[i - 1], c));
            }
        }
    } else {
        assert(p =~= Seq::<int>::empty());
        assert(r == (MatchV { groups: m.groups.push(c), ..m }));
    }
}

/// The groups found around an offset: none when the match does not cover
/// it; otherwise the match first, each next one nested in the one before,
/// and every one of them covering the offset.
pub proof fn lemma_group_path(m: MatchV, offset: usize)
    ensures
        group_path(m, offset).len() > 0 <==> covers_offset(m, offset),
        group_path(m, offset).len() > 0 ==> group_path(m, offset)[0] == m,
        forall|k: int| 0 <= k < group_path(m, offset).len() ==> covers_offset(#[trigger] group_path(m, offset)[k], offset),
        forall|k: int|
            0 <= k < group_path(m, offset).len() - 1 ==> (#[trigger] group_path(m, offset)[k]).groups.contains(
                group_path(m, offset)[k + 1],
            ),
    decreases m,
{
    if covers_offset(m, offset) {
        let j = first_covering_offset(m.groups, offset);
        lemma_first_covering_offset(m.groups, offset);
        if j < m.groups.len() {
            let g = m.groups[j as int];
            lemma_group_path(g, offset);
            let p = group_path(m, offset);
            let q = group_path(g, offset);
            assert(p == seq![m] + q);
            assert forall|k: int| 0 <= k < p.len() implies covers_offset(#[trigger] p[k], offset) by {
                if k > 0 {
                    assert(p[k] == q[k - 1]);
                }
            }
            assert forall|k: int| 0 <= k < p.len() - 1 implies (#[trigger] p[k]).groups.contains(p[k + 1]) by {
                if k == 0 {
                    assert(p[1] == q[0]);
                    assert(m.groups[j as int] == g);
                } else {
                    assert(p[k] == q[k - 1]);
                    assert(p[k + 1] == q[k]);
                }
            }
        }
    }
}

/// A group is placed inside the first existing group that contains it,
/// ends included (`g.start <= c.start` and `c.end <= g.end`); the other
/// groups are left as they are. When no group contains it, it becomes the
/// last group of the match.
pub proof fn lemma_insert_into_containing(m: MatchV, c: MatchV, k: int)
    requires
        0 <= k < m.groups.len(),
        m.groups[k].start <= c.start && c.end <= m.groups[k].end,
        forall|j: int| 0 <= j < k ==> !(#[trigger] m.groups[j].start <= c.start && c.end <= m.groups[j].end),
    ensures
        insert_group(m, c).groups.len() == m.groups.len(),
        insert_group(m, c).groups[k] == insert_group(m.groups[k], c),
        forall|j: int| 0 <= j < m.groups.len() && j != k ==> #[trigger] insert_group(m, c).groups[j] == m.groups[j],
{
    lemma_first_covering(m.groups, c);
    let f = first_covering(m.groups, c);
    if f < k {
        assert(covers(m.groups[f as int], c));
        assert(!(m.groups[f as int].start <= c.start && c.end <= m.groups[f as int].end));
    }
    if f > k {
        assert(!covers(m.groups[k], c));
    }
}

/// When no existing group contains the placed group (ends included), it is
/// appended as the match's last group.
pub proof fn lemma_insert_appends(m: MatchV, c: MatchV)
    requires
        forall|j: int| 0 <= j < m.groups.len() ==> !(#[trigger] m.groups[j].start <= c.start && c.end <= m.groups[j].end),
    ensures
        insert_group(m, c).groups == m.groups.push(c),
{
    lemma_first_covering(m.groups, c);
    let f = first_covering(m.groups, c);
    if f < m.groups.len() {
        assert(covers(m.groups[f as int], c));
        assert(!(m.groups[f as int].start <= c.start && c.end <= m.groups[f as int].end));
    }
}

} // verus!
