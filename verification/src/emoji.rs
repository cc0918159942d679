//! The emoji catalog and how it is searched.

use crate::order;
use crate::order::{sort, SortKey};
use crate::text;
use emojis::{Emoji, Group as Category};
use vstd::prelude::*;

verus! {

/// A category of emojis.
#[derive(Debug, Clone, Copy, PartialEq, Eq, Structural)]
pub enum Group {
    SmileysAndEmotion,
    PeopleAndBody,
    AnimalsAndNature,
    FoodAndDrink,
    TravelAndPlaces,
    Activities,
    Objects,
    Symbols,
    Flags,
}

/// An emoji of the catalog.
#[derive(Debug)]
pub struct EmojiEntry {
    /// The emoji itself.
    pub glyph: String,
    pub name: String,
    pub shortcodes: Vec<String>,
    pub group: Group,
}

/// What an [`EmojiEntry`] holds.
#[verifier::ext_equal]
pub struct EmojiView {
    pub glyph: Seq<char>,
    pub name: Seq<char>,
    pub shortcodes: Seq<Seq<char>>,
    pub group: Group,
}

impl View for EmojiEntry {
    type V = EmojiView;

    open spec fn view(&self) -> EmojiView {
        EmojiView {
            glyph: self.glyph@,
            name: self.name@,
            shortcodes: text::texts_of(self.shortcodes@),
            group: self.group,
        }
    }
}

/// What the entries of `v` hold.
pub open spec fn entry_views(v: Seq<EmojiEntry>) -> Seq<EmojiView> {
    Seq::new(v.len(), |i: int| v[i]@)
}

/// Entry `i` of what `emojis::iter` walks through; none behind the last one.
pub uninterp spec fn catalog_entry(i: int) -> Option<EmojiView>;

/// `emojis::iter` walks through a fixed table: the emojis in their default skin tone, each
/// with its text, its CLDR name, its shortcodes and its group. Entry by entry this is the
/// table.
#[verifier::external_body]
fn catalog() -> (all: Vec<EmojiEntry>)
    ensures
        forall|i: int| 0 <= i < all@.len() ==> catalog_entry(i) == Some((#[trigger] all@[i])@),
        catalog_entry(all@.len() as int) is None,
{
    let group = |g| match g {
        Category::SmileysAndEmotion => Group::SmileysAndEmotion,
        Category::PeopleAndBody => Group::PeopleAndBody,
        Category::AnimalsAndNature => Group::AnimalsAndNature,
        Category::FoodAndDrink => Group::FoodAndDrink,
        Category::TravelAndPlaces => Group::TravelAndPlaces,
        Category::Activities => Group::Activities,
        Category::Objects => Group::Objects,
        Category::Symbols => Group::Symbols,
        Category::Flags => Group::Flags,
    };
    let codes = |e: &Emoji| e.shortcodes().map(str::to_owned).collect();
    let entry = |e: &Emoji| EmojiEntry { glyph: e.as_str().to_owned(), name: e.name().to_owned(),
        shortcodes: codes(e), group: group(e.group()) };
    emojis::iter().map(entry).collect()
}

/// The text that `str::to_lowercase` makes of `s`.
pub uninterp spec fn lowercase(s: Seq<char>) -> Seq<char>;

/// `str::to_lowercase` gives the lowercase equivalent of a text, as Unicode has it.
#[verifier::external_body]
fn to_lowercase(s: &str) -> (r: String)
    ensures
        r@ == lowercase(s@),
{
    s.to_lowercase()
}

/// `i` is the first place at which `p` holds.
pub open spec fn is_first(items: Seq<Seq<char>>, p: spec_fn(Seq<char>) -> bool, i: int) -> bool {
    &&& 0 <= i < items.len()
    &&& p(items[i])
    &&& forall|j: int| 0 <= j < i ==> !p(#[trigger] items[j])
}

/// The first place at which `p` holds.
pub open spec fn first_place(items: Seq<Seq<char>>, p: spec_fn(Seq<char>) -> bool) -> Option<int> {
    if exists|i: int| is_first(items, p, i) {
        Some(choose|i: int| is_first(items, p, i))
    } else {
        None
    }
}

/// Texts that begin with `q`.
pub open spec fn begins_with(q: Seq<char>) -> spec_fn(Seq<char>) -> bool {
    |s: Seq<char>| q.is_prefix_of(s)
}

/// Texts that hold `q`.
pub open spec fn holds(q: Seq<char>) -> spec_fn(Seq<char>) -> bool {
    |s: Seq<char>| text::occurs(q, s)
}

/// How well an emoji with this name and these shortcodes matches `q`, where it does: the
/// smaller the better. Best is the name itself, then the first shortcode, then the
/// beginning of the name, of a shortcode, and what stands inside of the name or of a
/// shortcode.
pub open spec fn score(q: Seq<char>, name: Seq<char>, aliases: Seq<Seq<char>>) -> Option<nat> {
    if name == q {
        Some(0)
    } else if aliases.len() > 0 && aliases[0] == q {
        Some(1)
    } else if q.is_prefix_of(name) {
        Some(2)
    } else if let Some(i) = first_place(aliases, begins_with(q)) {
        Some((10 + i) as nat)
    } else if text::occurs(q, name) {
        Some(30)
    } else if let Some(i) = first_place(aliases, holds(q)) {
        Some((100 + i) as nat)
    } else {
        None
    }
}

/// `texts` in lower case.
pub open spec fn lowered(texts: Seq<Seq<char>>) -> Seq<Seq<char>> {
    texts.map_values(|s: Seq<char>| lowercase(s))
}

/// How well `e` matches `q`, in lower case.
pub open spec fn entry_score(q: Seq<char>, e: EmojiView) -> Option<nat> {
    score(q, lowercase(e.name), lowered(e.shortcodes))
}

/// Where the first of `texts` stands that begins with `q`.
fn find_beginning(q: &str, texts: &[String]) -> (at: Option<usize>)
    ensures
        match at {
            Some(i) => first_place(text::texts_of(texts@), begins_with(q@)) == Some(i as int),
            None => first_place(text::texts_of(texts@), begins_with(q@)) is None,
        },
{
    let ghost all = text::texts_of(texts@);
    for i in 0..texts.len()
        invariant
            all == text::texts_of(texts@),
            forall|j: int| 0 <= j < i ==> !begins_with(q@)(#[trigger] all[j]),
    {
        assert(all[i as int] == texts@[i as int]@);
        if text::starts_with(texts[i].as_str(), q) {
            proof {
                assert(is_first(all, begins_with(q@), i as int));
                let k = choose|k: int| is_first(all, begins_with(q@), k);
                assert(k == i);
            }
            return Some(i);
        }
    }
    None
}

/// Where the first of `texts` stands that holds `q`.
fn find_inside(q: &str, texts: &[String]) -> (at: Option<usize>)
    ensures
        match at {
            Some(i) => first_place(text::texts_of(texts@), holds(q@)) == Some(i as int),
            None => first_place(text::texts_of(texts@), holds(q@)) is None,
        },
{
    let ghost all = text::texts_of(texts@);
    for i in 0..texts.len()
        invariant
            all == text::texts_of(texts@),
            forall|j: int| 0 <= j < i ==> !holds(q@)(#[trigger] all[j]),
    {
        assert(all[i as int] == texts@[i as int]@);
        if text::contains(texts[i].as_str(), q) {
            proof {
                assert(is_first(all, holds(q@), i as int));
                let k = choose|k: int| is_first(all, holds(q@), k);
                assert(k == i);
            }
            return Some(i);
        }
    }
    None
}

/// How well an emoji with this name and these shortcodes, all in lower case, matches `q`.
pub fn score_of(q: &str, name: &str, aliases: &[String]) -> (s: Option<u128>)
    ensures
        match s {
            Some(n) => score(q@, name@, text::texts_of(aliases@)) == Some(n as nat),
            None => score(q@, name@, text::texts_of(aliases@)) is None,
        },
{
    if text::same_text(name, q) {
        return Some(0);
    }
    if aliases.len() > 0 {
        assert(text::texts_of(aliases@)[0] == aliases@[0]@);
        if text::same_text(aliases[0].as_str(), q) {
            return Some(1);
        }
    }
    if text::starts_with(name, q) {
        return Some(2);
    }
    if let Some(i) = find_beginning(q, aliases) {
        return Some(10 + i as u128);
    }
    if text::contains(name, q) {
        return Some(30);
    }
    match find_inside(q, aliases) {
        Some(i) => Some(100 + i as u128),
        None => None,
    }
}

/// How well `e` matches `q`.
fn score_entry(q: &str, e: &EmojiEntry) -> (s: Option<u128>)
    ensures
        match s {
            Some(n) => entry_score(q@, e@) == Some(n as nat),
            None => entry_score(q@, e@) is None,
        },
{
    let name = to_lowercase(e.name.as_str());
    let mut aliases: Vec<String> = Vec::new();
    for i in 0..e.shortcodes.len()
        invariant
            text::texts_of(aliases@) == lowered(e@.shortcodes.take(i as int)),
    {
        let ghost had = text::texts_of(aliases@);
        let alias = to_lowercase(e.shortcodes[i].as_str());
        aliases.push(alias);
        proof {
            assert(e@.shortcodes[i as int] == e.shortcodes@[i as int]@);
            assert(text::texts_of(aliases@) =~= had.push(alias@));
            assert(lowered(e@.shortcodes.take(i + 1)) =~= lowered(
                e@.shortcodes.take(i as int),
            ).push(alias@));
        }
    }
    assert(e@.shortcodes.take(e@.shortcodes.len() as int) =~= e@.shortcodes);
    score_of(q, name.as_str(), aliases.as_slice())
}

/// An emoji that matches, and how well.
pub struct Scored {
    pub entry: EmojiView,
    pub score: nat,
}

/// The better match comes first.
pub open spec fn better() -> spec_fn(Scored, Scored) -> bool {
    |a: Scored, b: Scored| a.score < b.score
}

/// The emojis of the catalog that match `q`, in its order.
pub open spec fn hits(all: Seq<EmojiView>, q: Seq<char>) -> Seq<Scored>
    decreases all.len(),
{
    if all.len() == 0 {
        Seq::empty()
    } else {
        let before = hits(all.drop_last(), q);
        match entry_score(q, all.last()) {
            Some(n) => before.push(Scored { entry: all.last(), score: n }),
            None => before,
        }
    }
}

/// Smileys and people: what there is to see before anything is searched for.
pub open spec fn is_popular() -> spec_fn(EmojiView) -> bool {
    |e: EmojiView| e.group == Group::SmileysAndEmotion || e.group == Group::PeopleAndBody
}

/// The first `limit` emojis of the catalog `all` that `query` finds, the best matches
/// first; matches that are equally good stand in the order of the catalog. Without a
/// query, popular ones.
pub open spec fn found(all: Seq<EmojiView>, query: Seq<char>, limit: int) -> Seq<EmojiView> {
    if text::trimmed(query).len() == 0 {
        order::up_to(all.filter(is_popular()), limit)
    } else {
        order::up_to(
            order::sorted(hits(all, lowercase(text::trimmed(query))), better()),
            limit,
        ).map_values(|s: Scored| s.entry)
    }
}

fn copy_entry(e: &EmojiEntry) -> (copy: EmojiEntry)
    ensures
        copy@ == e@,
{
    let mut shortcodes: Vec<String> = Vec::new();
    for i in 0..e.shortcodes.len()
        invariant
            shortcodes@.len() == i,
            forall|j: int| 0 <= j < i ==> (#[trigger] shortcodes@[j])@ == e.shortcodes@[j]@,
    {
        shortcodes.push(e.shortcodes[i].clone());
    }
    assert(text::texts_of(shortcodes@) =~= text::texts_of(e.shortcodes@));
    EmojiEntry { glyph: e.glyph.clone(), name: e.name.clone(), shortcodes, group: e.group }
}

/// The first `limit` popular emojis of the catalog `all`.
pub fn default_set(all: &[EmojiEntry], limit: usize) -> (r: Vec<EmojiEntry>)
    ensures
        entry_views(r@) == order::up_to(entry_views(all@).filter(is_popular()), limit as int),
{
    let ghost p = is_popular();
    let ghost views = entry_views(all@);
    let mut r: Vec<EmojiEntry> = Vec::new();
    let mut i: usize = 0;
    proof {
        views.take(0).lemma_filter_len(p);
        assert(entry_views(r@) =~= views.take(0).filter(p));
    }
    while i < all.len() && r.len() < limit
        invariant
            p == is_popular(),
            views == entry_views(all@),
            i <= all@.len(),
            entry_views(r@) == views.take(i as int).filter(p),
            r@.len() <= limit,
        decreases all@.len() - i,
    {
        let ghost had = entry_views(r@);
        proof {
            assert(views.take(i + 1) =~= views.take(i as int).push(all@[i as int]@));
            views.take(i as int).lemma_filter_push(all@[i as int]@, p);
        }
        let group = all[i].group;
        if group == Group::SmileysAndEmotion || group == Group::PeopleAndBody {
            let e = copy_entry(&all[i]);
            r.push(e);
            assert(entry_views(r@) =~= had.push(e@));
        }
        i = i + 1;
    }
    proof {
        let rest = views.skip(i as int);
        assert(views =~= views.take(i as int) + rest);
        Seq::filter_distributes_over_add(views.take(i as int), rest, p);
        if i == all@.len() {
            rest.lemma_filter_len(p);
            assert(entry_views(r@) =~= views.filter(p));
        } else {
            assert(views.filter(p).take(limit as int) =~= entry_views(r@));
        }
        assert(entry_views(r@) =~= order::up_to(views.filter(p), limit as int));
    }
    r
}

/// How well a match is, and where the emoji stands in the catalog.
#[derive(Clone, Copy)]
struct ScoreKey {
    score: u128,
    at: usize,
}

impl SortKey for ScoreKey {
    closed spec fn ahead(self, other: ScoreKey) -> bool {
        self.score < other.score
    }

    fn is_ahead(&self, other: &ScoreKey) -> (b: bool) {
        self.score < other.score
    }
}

/// The first `limit` emojis of the catalog `all` that `query` finds.
pub fn search_in(all: &[EmojiEntry], query: &str, limit: usize) -> (r: Vec<EmojiEntry>)
    ensures
        entry_views(r@) == found(entry_views(all@), query@, limit as int),
{
    let trimmed = text::trim(query);
    if text::chars_of(trimmed.as_str()).len() == 0 {
        return default_set(all, limit);
    }
    let q = to_lowercase(trimmed.as_str());
    let ghost views = entry_views(all@);
    let ghost item = |k: ScoreKey| Scored { entry: views[k.at as int], score: k.score as nat };
    let mut keys: Vec<ScoreKey> = Vec::new();
    for i in 0..all.len()
        invariant
            views == entry_views(all@),
            item == (|k: ScoreKey| Scored { entry: views[k.at as int], score: k.score as nat }),
            keys@.map_values(item) == hits(views.take(i as int), q@),
            forall|j: int| 0 <= j < keys@.len() ==> (#[trigger] keys@[j]).at < views.len(),
    {
        let ghost had = keys@;
        proof {
            let upto = views.take(i + 1);
            assert(upto.drop_last() =~= views.take(i as int));
            assert(upto.last() == all@[i as int]@);
        }
        if let Some(score) = score_entry(q.as_str(), &all[i]) {
            let key = ScoreKey { score, at: i };
            keys.push(key);
            assert(had.push(key).map_values(item) =~= had.map_values(item).push(item(key)));
        }
    }
    assert(views.take(views.len() as int) =~= views);
    let order = sort(keys.as_slice());
    proof {
        order::sorted_by_keys(keys@, item, order::key_order::<ScoreKey>(), better());
        order::sorted_keeps_items(keys@, order::key_order::<ScoreKey>());
        assert forall|i: int| 0 <= i < order@.len() implies (#[trigger] order@[i]).at
            < views.len() by {
            assert(order@.contains(order@[i]));
            assert(keys@.contains(order@[i]));
        }
    }
    let n: usize = if order.len() > limit {
        limit
    } else {
        order.len()
    };
    let mut r: Vec<EmojiEntry> = Vec::new();
    for i in 0..n
        invariant
            n <= order@.len(),
            views == entry_views(all@),
            r@.len() == i,
            forall|j: int| 0 <= j < order@.len() ==> (#[trigger] order@[j]).at < views.len(),
            forall|j: int| 0 <= j < i ==> (#[trigger] r@[j])@ == views[order@[j].at as int],
    {
        let at = order[i].at;
        assert(views[at as int] == all@[at as int]@);
        r.push(copy_entry(&all[at]));
    }
    proof {
        let best = order::sorted(hits(views, q@), better());
        assert forall|j: int| 0 <= j < n implies (#[trigger] r@[j])@ == best[j].entry by {
            assert(order@.map_values(item)[j] == item(order@[j]));
        }
        assert(best.len() == order@.len());
        assert(entry_views(r@) =~= found(views, query@, limit as int));
    }
    r
}

/// `all` is the catalog.
pub open spec fn is_catalog(all: Seq<EmojiView>) -> bool {
    &&& forall|i: int| 0 <= i < all.len() ==> catalog_entry(i) == Some(#[trigger] all[i])
    &&& catalog_entry(all.len() as int) is None
}

/// The first `limit` emojis that `query` finds; popular ones without a query.
pub fn search(query: &str, limit: usize) -> (r: Vec<EmojiEntry>)
    ensures
        exists|all: Seq<EmojiView>| #[trigger]
            is_catalog(all) && entry_views(r@) == found(all, query@, limit as int),
{
    let all = catalog();
    let ghost views = entry_views(all@);
    assert(is_catalog(views));
    search_in(all.as_slice(), query, limit)
}

/// There is one catalog, so the same query always finds the same emojis.
pub proof fn there_is_one_catalog(a: Seq<EmojiView>, b: Seq<EmojiView>)
    requires
        is_catalog(a),
        is_catalog(b),
    ensures
        a == b,
{
    if a.len() < b.len() {
        assert(catalog_entry(a.len() as int) == Some(b[a.len() as int]));
    } else if b.len() < a.len() {
        assert(catalog_entry(b.len() as int) == Some(a[b.len() as int]));
    }
    assert forall|i: int| 0 <= i < a.len() implies a[i] == b[i] by {
        assert(Some(a[i]) == Some(b[i]));
    }
    assert(a =~= b);
}

proof fn first_place_is_found(items: Seq<Seq<char>>, p: spec_fn(Seq<char>) -> bool, k: int)
    requires
        0 <= k < items.len(),
        p(items[k]),
    ensures
        first_place(items, p) matches Some(i) && is_first(items, p, i) && i <= k,
    decreases k,
{
    if exists|j: int| 0 <= j < k && p(#[trigger] items[j]) {
        let j = choose|j: int| 0 <= j < k && p(#[trigger] items[j]);
        first_place_is_found(items, p, j);
    } else {
        assert(is_first(items, p, k));
        let i = choose|i: int| is_first(items, p, i);
        assert(is_first(items, p, i));
    }
}

proof fn beginnings_are_inside(q: Seq<char>, s: Seq<char>)
    requires
        q.is_prefix_of(s),
    ensures
        text::occurs(q, s),
{
    assert(text::occurs_at(q, s, 0)) by {
        assert(s.subrange(0, q.len() as int) =~= q);
    }
}

/// An emoji matches exactly if its name or one of its shortcodes holds what is searched
/// for.
pub proof fn matches_hold_the_query(q: Seq<char>, name: Seq<char>, aliases: Seq<Seq<char>>)
    ensures
        score(q, name, aliases) is Some <==> text::occurs(q, name) || exists|i: int|
            0 <= i < aliases.len() && text::occurs(q, #[trigger] aliases[i]),
{
    let inside = exists|i: int| 0 <= i < aliases.len() && text::occurs(q, #[trigger] aliases[i]);
    assert(name == q ==> text::occurs(q, name)) by {
        if name == q {
            assert(name.subrange(0, q.len() as int) =~= q);
            beginnings_are_inside(q, name);
        }
    }
    assert(q.is_prefix_of(name) ==> text::occurs(q, name)) by {
        if q.is_prefix_of(name) {
            beginnings_are_inside(q, name);
        }
    }
    assert(aliases.len() > 0 && aliases[0] == q ==> inside) by {
        if aliases.len() > 0 && aliases[0] == q {
            assert(q.subrange(0, q.len() as int) =~= q);
            beginnings_are_inside(q, aliases[0]);
        }
    }
    assert(first_place(aliases, begins_with(q)) is Some ==> inside) by {
        if let Some(i) = first_place(aliases, begins_with(q)) {
            assert(is_first(aliases, begins_with(q), i));
            beginnings_are_inside(q, aliases[i]);
        }
    }
    assert(first_place(aliases, holds(q)) is Some <==> inside) by {
        if let Some(i) = first_place(aliases, holds(q)) {
            assert(is_first(aliases, holds(q), i));
            assert(text::occurs(q, aliases[i]));
        }
        if inside {
            let i = choose|i: int| 0 <= i < aliases.len() && text::occurs(q, #[trigger] aliases[i]);
            first_place_is_found(aliases, holds(q), i);
        }
    }
}

/// How a match is ranked tells what matched: the whole name, the whole first shortcode,
/// the beginning of the name, the beginning of a shortcode, the inside of the name, or
/// only the inside of a shortcode. This holds as long as there are not more than twenty
/// shortcodes.
pub proof fn ranks_tell_what_matched(q: Seq<char>, name: Seq<char>, aliases: Seq<Seq<char>>)
    requires
        aliases.len() <= 20,
    ensures
        ({
            let s = score(q, name, aliases);
            let begun = exists|i: int| 0 <= i < aliases.len() && q.is_prefix_of(#[trigger] aliases[i]);
            let first = aliases.len() > 0 && aliases[0] == q;
            &&& s == Some(0nat) <==> name == q
            &&& s == Some(1nat) <==> name != q && first
            &&& s == Some(2nat) <==> name != q && !first && q.is_prefix_of(name)
            &&& (s matches Some(n) && 10 <= n < 30) <==> !q.is_prefix_of(name) && !first && begun
            &&& s == Some(30nat) <==> !q.is_prefix_of(name) && !begun && text::occurs(q, name)
            &&& (s matches Some(n) && n >= 100) <==> s is Some && !begun && !text::occurs(q, name)
        }),
{
    if q.is_prefix_of(name) {
        beginnings_are_inside(q, name);
    }
    if name == q {
        assert(name.subrange(0, q.len() as int) =~= q);
        assert(q.is_prefix_of(name));
    }
    let first = aliases.len() > 0 && aliases[0] == q;
    if first {
        assert(q.subrange(0, q.len() as int) =~= q);
        assert(q.is_prefix_of(aliases[0]));
    }
    if exists|i: int| 0 <= i < aliases.len() && q.is_prefix_of(#[trigger] aliases[i]) {
        let i = choose|i: int| 0 <= i < aliases.len() && q.is_prefix_of(#[trigger] aliases[i]);
        first_place_is_found(aliases, begins_with(q), i);
    }
    if let Some(i) = first_place(aliases, begins_with(q)) {
        assert(is_first(aliases, begins_with(q), i));
    }
    if let Some(i) = first_place(aliases, holds(q)) {
        assert(is_first(aliases, holds(q), i));
    }
}

/// What is ranked is what matches: emojis of the catalog, each with its score.
proof fn hits_are_the_matches(all: Seq<EmojiView>, q: Seq<char>)
    ensures
        forall|i: int|
            0 <= i < hits(all, q).len() ==> all.contains((#[trigger] hits(all, q)[i]).entry)
                && entry_score(q, hits(all, q)[i].entry) == Some(hits(all, q)[i].score),
        forall|k: int|
            0 <= k < all.len() && entry_score(q, #[trigger] all[k]) is Some ==> hits(
                all,
                q,
            ).contains(Scored { entry: all[k], score: entry_score(q, all[k])->0 }),
    decreases all.len(),
{
    if all.len() > 0 {
        let front = all.drop_last();
        let before = hits(front, q);
        let now = hits(all, q);
        hits_are_the_matches(front, q);
        assert forall|i: int| 0 <= i < now.len() implies all.contains((#[trigger] now[i]).entry)
            && entry_score(q, now[i].entry) == Some(now[i].score) by {
            if i < before.len() {
                assert(now[i] == before[i]);
                let k = choose|k: int| 0 <= k < front.len() && front[k] == before[i].entry;
                assert(all[k] == before[i].entry);
            } else {
                assert(all[all.len() - 1] == now[i].entry);
            }
        }
        assert forall|k: int| 0 <= k < all.len() && entry_score(
            q,
            #[trigger] all[k],
        ) is Some implies now.contains(
            Scored { entry: all[k], score: entry_score(q, all[k])->0 },
        ) by {
            let hit = Scored { entry: all[k], score: entry_score(q, all[k])->0 };
            if k < front.len() {
                assert(front[k] == all[k]);
                let i = choose|i: int| 0 <= i < before.len() && before[i] == hit;
                assert(now[i] == hit);
            } else {
                assert(now[now.len() - 1] == hit);
            }
        }
    }
}

/// A search finds emojis of the catalog that match, at most as many as asked for. No
/// match comes behind a worse one, and what is left out is no better than what is found.
pub proof fn better_matches_come_first(
    all: Seq<EmojiView>,
    query: Seq<char>,
    limit: int,
    left_out: EmojiView,
)
    requires
        0 <= limit,
        text::trimmed(query).len() > 0,
    ensures
        ({
            let q = lowercase(text::trimmed(query));
            let r = found(all, query, limit);
            &&& r.len() <= limit
            &&& forall|i: int|
                0 <= i < r.len() ==> all.contains(#[trigger] r[i]) && entry_score(q, r[i]) is Some
            &&& forall|i: int, j: int|
                0 <= i < j < r.len() ==> entry_score(q, #[trigger] r[i])->0 <= entry_score(
                    q,
                    #[trigger] r[j],
                )->0
            &&& all.contains(left_out) && entry_score(q, left_out) is Some && !r.contains(left_out)
                ==> r.len() == limit && forall|i: int|
                0 <= i < r.len() ==> entry_score(q, #[trigger] r[i])->0 <= entry_score(
                    q,
                    left_out,
                )->0
        }),
{
    let q = lowercase(text::trimmed(query));
    let h = hits(all, q);
    let best = order::sorted(h, better());
    let r = found(all, query, limit);
    hits_are_the_matches(all, q);
    order::sorted_keeps_items(h, better());
    order::sorted_is_in_order(h, better());
    assert forall|i: int| 0 <= i < best.len() implies all.contains((#[trigger] best[i]).entry)
        && entry_score(q, best[i].entry) == Some(best[i].score) by {
        assert(best.contains(best[i]));
        let k = choose|k: int| 0 <= k < h.len() && h[k] == best[i];
        assert(h[k] == best[i]);
    }
    assert forall|i: int| 0 <= i < r.len() implies #[trigger] r[i] == best[i].entry by {}
    assert forall|i: int, j: int| 0 <= i < j < best.len() implies (#[trigger] best[i]).score <= (
    #[trigger] best[j]).score by {
        assert(!better()(best[j], best[i]));
    }
    if all.contains(left_out) && entry_score(q, left_out) is Some && !r.contains(left_out) {
        let k = choose|k: int| 0 <= k < all.len() && all[k] == left_out;
        let hit = Scored { entry: left_out, score: entry_score(q, left_out)->0 };
        assert(h.contains(hit));
        assert(best.contains(hit));
        let j = choose|j: int| 0 <= j < best.len() && best[j] == hit;
        if j < r.len() {
            assert(r[j] == left_out);
        }
        assert forall|i: int| 0 <= i < r.len() implies entry_score(q, #[trigger] r[i])->0
            <= entry_score(q, left_out)->0 by {
            assert(best[i].score <= best[j].score);
        }
    }
}

/// Without a query smileys and people are shown, in the order of the catalog.
pub proof fn popular_emojis_are_shown_first(all: Seq<EmojiView>, query: Seq<char>, limit: int)
    requires
        0 <= limit,
        text::trimmed(query).len() == 0,
    ensures
        found(all, query, limit).is_prefix_of(all.filter(is_popular())),
        found(all, query, limit).len() == vstd::math::min(
            limit,
            all.filter(is_popular()).len() as int,
        ),
{
    let popular = all.filter(is_popular());
    let r = found(all, query, limit);
    assert(popular.subrange(0, r.len() as int) =~= r);
}

/// Matches that are equally good stand in the order of the catalog.
pub proof fn equal_matches_keep_their_order(all: Seq<EmojiView>, q: Seq<char>, with: Scored)
    ensures
        order::sorted(hits(all, q), better()).filter(order::tied(with, better())) == hits(
            all,
            q,
        ).filter(order::tied(with, better())),
{
    order::sorted_is_stable(hits(all, q), with, better());
}

/// The emojis that match are counted by their own names and shortcodes.
proof fn hits_are_counted(all: Seq<EmojiView>, q: Seq<char>, p: spec_fn(EmojiView) -> bool)
    requires
        forall|e: EmojiView| #[trigger] p(e) == entry_score(q, e) is Some,
    ensures
        hits(all, q).len() == all.filter(p).len(),
    decreases all.len(),
{
    if all.len() == 0 {
        all.lemma_filter_len(p);
    } else {
        let front = all.drop_last();
        hits_are_counted(front, q, p);
        assert(all =~= front.push(all.last()));
        front.lemma_filter_push(all.last(), p);
    }
}

proof fn entries_match_by_their_texts(q: Seq<char>, e: EmojiView)
    ensures
        entry_score(q, e) == score(
            q,
            lowercase(e.name),
            e.shortcodes.map_values(|s: Seq<char>| lowercase(s)),
        ),
        entry_score(q, e) is Some <==> text::occurs(q, lowercase(e.name)) || exists|i: int|
            0 <= i < e.shortcodes.len() && text::occurs(q, lowercase(#[trigger] e.shortcodes[i])),
{
    let aliases = lowered(e.shortcodes);
    matches_hold_the_query(q, lowercase(e.name), aliases);
    if exists|i: int| 0 <= i < aliases.len() && text::occurs(q, #[trigger] aliases[i]) {
        let i = choose|i: int| 0 <= i < aliases.len() && text::occurs(q, #[trigger] aliases[i]);
        assert(aliases[i] == lowercase(e.shortcodes[i]));
    }
    if exists|i: int|
        0 <= i < e.shortcodes.len() && text::occurs(q, lowercase(#[trigger] e.shortcodes[i])) {
        let i = choose|i: int|
            0 <= i < e.shortcodes.len() && text::occurs(q, lowercase(#[trigger] e.shortcodes[i]));
        assert(aliases[i] == lowercase(e.shortcodes[i]));
    }
}

/// Every emoji is found by its own name and shortcodes, whatever its group: where enough is
/// asked for, entry `k` of the catalog is found exactly if its name or one of its shortcodes
/// holds what is searched for, in lower case and without whitespace around it. Nothing else is
/// found, and nothing twice.
pub proof fn every_emoji_is_found_by_its_texts(
    all: Seq<EmojiView>,
    query: Seq<char>,
    limit: int,
    k: int,
)
    requires
        text::trimmed(query).len() > 0,
        0 <= k < all.len() <= limit,
    ensures
        ({
            let q = lowercase(text::trimmed(query));
            let matching = |e: EmojiView|
                text::occurs(q, lowercase(e.name)) || exists|i: int|
                    0 <= i < e.shortcodes.len() && text::occurs(
                        q,
                        lowercase(#[trigger] e.shortcodes[i]),
                    );
            let r = found(all, query, limit);
            &&& r.contains(all[k]) <==> matching(all[k])
            &&& forall|i: int| 0 <= i < r.len() ==> all.contains(#[trigger] r[i]) && matching(r[i])
            &&& r.len() == all.filter(matching).len()
        }),
{
    let q = lowercase(text::trimmed(query));
    let matching = |e: EmojiView|
        text::occurs(q, lowercase(e.name)) || exists|i: int|
            0 <= i < e.shortcodes.len() && text::occurs(q, lowercase(#[trigger] e.shortcodes[i]));
    assert forall|e: EmojiView| #[trigger] matching(e) == entry_score(q, e) is Some by {
        entries_match_by_their_texts(q, e);
    }
    hits_are_counted(all, q, matching);
    all.lemma_filter_len(matching);
    order::sorted_keeps_items(hits(all, q), better());
    better_matches_come_first(all, query, limit, all[k]);
    let r = found(all, query, limit);
    if matching(all[k]) && !r.contains(all[k]) {
        hits_are_the_matches(all, q);
        assert(r.len() == limit);
        assert(all.contains(all[k]));
        found_is_all_of_it(all, query, limit);
        let hit = Scored { entry: all[k], score: entry_score(q, all[k])->0 };
        let best = order::sorted(hits(all, q), better());
        assert(best.contains(hit));
        let j = choose|j: int| 0 <= j < best.len() && best[j] == hit;
        assert(r[j] == all[k]);
    }
    if r.contains(all[k]) {
        let i = choose|i: int| 0 <= i < r.len() && r[i] == all[k];
        assert(matching(r[i]) == entry_score(q, r[i]) is Some);
    }
    assert forall|i: int| 0 <= i < r.len() implies all.contains(#[trigger] r[i]) && matching(
        r[i],
    ) by {
        assert(entry_score(q, r[i]) is Some);
    }
}

proof fn found_is_all_of_it(all: Seq<EmojiView>, query: Seq<char>, limit: int)
    requires
        text::trimmed(query).len() > 0,
        all.len() <= limit,
    ensures
        ({
            let best = order::sorted(hits(all, lowercase(text::trimmed(query))), better());
            found(all, query, limit) == best.map_values(|s: Scored| s.entry)
        }),
{
    let q = lowercase(text::trimmed(query));
    let p = |e: EmojiView| entry_score(q, e) is Some;
    hits_are_counted(all, q, p);
    all.lemma_filter_len(p);
    order::sorted_keeps_items(hits(all, q), better());
}

/// Emojis are ranked by how their own names and shortcodes match: one whose name is what is
/// searched for comes before one whose first shortcode is, then come names that begin with it,
/// then shortcodes that do, then names that hold it, then shortcodes that do. This is so as
/// long as there are not more than twenty shortcodes.
pub proof fn emojis_are_ranked_by_their_texts(
    all: Seq<EmojiView>,
    query: Seq<char>,
    limit: int,
    i: int,
    j: int,
)
    requires
        text::trimmed(query).len() > 0,
        0 <= i < j < found(all, query, limit).len(),
        0 <= limit,
        found(all, query, limit)[i].shortcodes.len() <= 20,
        found(all, query, limit)[j].shortcodes.len() <= 20,
    ensures
        ({
            let q = lowercase(text::trimmed(query));
            tier(q, found(all, query, limit)[i]) <= tier(q, found(all, query, limit)[j])
        }),
{
    let q = lowercase(text::trimmed(query));
    let r = found(all, query, limit);
    better_matches_come_first(all, query, limit, r[i]);
    tiers_follow_scores(q, r[i]);
    tiers_follow_scores(q, r[j]);
}

/// Which of the ways to match is the best that the emoji has.
pub open spec fn tier(q: Seq<char>, e: EmojiView) -> int {
    if lowercase(e.name) == q {
        0
    } else if e.shortcodes.len() > 0 && lowercase(e.shortcodes[0]) == q {
        1
    } else if q.is_prefix_of(lowercase(e.name)) {
        2
    } else if exists|i: int|
        0 <= i < e.shortcodes.len() && q.is_prefix_of(lowercase(#[trigger] e.shortcodes[i])) {
        3
    } else if text::occurs(q, lowercase(e.name)) {
        4
    } else {
        5
    }
}

proof fn tiers_follow_scores(q: Seq<char>, e: EmojiView)
    requires
        e.shortcodes.len() <= 20,
        entry_score(q, e) is Some,
    ensures
        ({
            let n = entry_score(q, e)->0;
            &&& tier(q, e) == 0 <==> n == 0
            &&& tier(q, e) == 1 <==> n == 1
            &&& tier(q, e) == 2 <==> n == 2
            &&& tier(q, e) == 3 <==> 10 <= n < 30
            &&& tier(q, e) == 4 <==> n == 30
            &&& tier(q, e) == 5 <==> n >= 100
        }),
{
    let name = lowercase(e.name);
    let aliases = lowered(e.shortcodes);
    ranks_tell_what_matched(q, name, aliases);
    entries_match_by_their_texts(q, e);
    assert(e.shortcodes.len() > 0 ==> aliases[0] == lowercase(e.shortcodes[0]));
    if name == q {
        assert(name.subrange(0, q.len() as int) =~= q);
    }
    if aliases.len() > 0 && aliases[0] == q {
        assert(aliases[0].subrange(0, q.len() as int) =~= q);
    }
    if exists|i: int| 0 <= i < aliases.len() && q.is_prefix_of(#[trigger] aliases[i]) {
        let i = choose|i: int| 0 <= i < aliases.len() && q.is_prefix_of(#[trigger] aliases[i]);
        assert(aliases[i] == lowercase(e.shortcodes[i]));
    }
    if exists|i: int|
        0 <= i < e.shortcodes.len() && q.is_prefix_of(lowercase(#[trigger] e.shortcodes[i])) {
        let i = choose|i: int|
            0 <= i < e.shortcodes.len() && q.is_prefix_of(lowercase(#[trigger] e.shortcodes[i]));
        assert(aliases[i] == lowercase(e.shortcodes[i]));
    }
}

/// Without a query the smileys and people of the catalog are shown, as many as asked for, in
/// its order, and nothing of the other groups.
pub proof fn smileys_and_people_are_shown_without_a_query(
    all: Seq<EmojiView>,
    query: Seq<char>,
    limit: int,
)
    requires
        0 <= limit,
        forall|i: int| 0 <= i < query.len() ==> text::whitespace(#[trigger] query[i]),
    ensures
        ({
            let shown = all.filter(
                |e: EmojiView|
                    e.group is SmileysAndEmotion || e.group is PeopleAndBody,
            );
            found(all, query, limit) == if shown.len() <= limit {
                shown
            } else {
                shown.take(limit)
            }
        }),
{
    let popular = |e: EmojiView| e.group is SmileysAndEmotion || e.group is PeopleAndBody;
    assert(popular =~= is_popular());
    text::trimming_takes_off_whitespace(query, Seq::empty(), Seq::empty());
    assert(query + Seq::<char>::empty() + Seq::<char>::empty() =~= query);
    popular_emojis_are_shown_first(all, query, limit);
    let shown = all.filter(popular);
    let r = found(all, query, limit);
    assert(r =~= shown.take(r.len() as int));
    assert(shown.take(shown.len() as int) =~= shown);
}

/// Emojis are ranked by the score of their own names and shortcodes, in lower case: whatever is
/// found has one, and it is no higher than that of what is found behind it. A search for fewer
/// gives the front of what a search for more gives.
pub proof fn emojis_are_ranked_by_score(
    all: Seq<EmojiView>,
    query: Seq<char>,
    limit: int,
    more: int,
    i: int,
    j: int,
)
    requires
        text::trimmed(query).len() > 0,
        0 <= limit <= more,
        0 <= i < j < found(all, query, limit).len(),
    ensures
        ({
            let q = lowercase(text::trimmed(query));
            let low = |s: Seq<char>| lowercase(s);
            let (a, b) = (found(all, query, limit)[i], found(all, query, limit)[j]);
            &&& score(q, lowercase(a.name), a.shortcodes.map_values(low)) matches Some(m) && score(
                q,
                lowercase(b.name),
                b.shortcodes.map_values(low),
            ) matches Some(n) && m <= n
        }),
        found(all, query, limit).is_prefix_of(found(all, query, more)),
        found(all, query, limit).len() == vstd::math::min(
            limit,
            found(all, query, more).len() as int,
        ),
{
    let q = lowercase(text::trimmed(query));
    let r = found(all, query, limit);
    better_matches_come_first(all, query, limit, r[i]);
    entries_match_by_their_texts(q, r[i]);
    entries_match_by_their_texts(q, r[j]);
    assert(found(all, query, more).subrange(0, r.len() as int) =~= r);
}

} // verus!
