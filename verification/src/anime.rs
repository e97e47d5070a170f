//! The catalog: the seasons on offer, each with its language track and its
//! episode sources.

use vstd::prelude::*;

verus! {

/// One season of a title in one language.
#[derive(Debug, Clone)]
pub struct Media {
    /// Title of the anime.
    pub name: String,
    /// Language track, in lower case.
    pub lang: String,
    /// Number of the season.
    pub season: i8,
    /// Kind of media, as the catalog gives it.
    pub media_type: String,
    /// The episode sources, in order.
    pub episodes: Vec<String>,
}

/// The whole catalog.
#[derive(Debug)]
pub struct Medias {
    pub media: Vec<Media>,
}

/// The titles of `media`, one per entry, in order.
pub open spec fn titles(media: Seq<Media>) -> Seq<Seq<char>> {
    Seq::new(media.len(), |i: int| media[i].name@)
}

/// The texts that `names` holds, in order.
pub open spec fn texts(names: Seq<String>) -> Seq<Seq<char>> {
    Seq::new(names.len(), |i: int| names[i]@)
}

/// `names` without repetitions: of each name the first occurrence stays.
pub open spec fn distinct(names: Seq<Seq<char>>) -> Seq<Seq<char>>
    decreases names.len(),
{
    if names.len() == 0 {
        Seq::empty()
    } else {
        let front = distinct(names.drop_last());
        if front.contains(names.last()) {
            front
        } else {
            front.push(names.last())
        }
    }
}

/// The entries of `media` whose title is `name`, in order.
pub open spec fn titled(media: Seq<Media>, name: Seq<char>) -> Seq<Media>
    decreases media.len(),
{
    if media.len() == 0 {
        Seq::empty()
    } else {
        let front = titled(media.drop_last(), name);
        if media.last().name@ == name {
            front.push(media.last())
        } else {
            front
        }
    }
}

/// Whether some entry of `media` is in the language `lang`.
pub open spec fn offers(media: Seq<Media>, lang: Seq<char>) -> bool {
    exists|i: int| 0 <= i < media.len() && (#[trigger] media[i]).lang@ == lang
}

/// The entries of `media` in the language `lang`, in order.
pub open spec fn spoken(media: Seq<Media>, lang: Seq<char>) -> Seq<Media>
    decreases media.len(),
{
    if media.len() == 0 {
        Seq::empty()
    } else {
        let front = spoken(media.drop_last(), lang);
        if media.last().lang@ == lang {
            front.push(media.last())
        } else {
            front
        }
    }
}

/// Whether the seasons of `media` never go down.
pub open spec fn is_by_season(media: Seq<Media>) -> bool {
    forall|i: int, j: int|
        0 <= i <= j < media.len() ==> (#[trigger] media[i]).season <= (#[trigger] media[j]).season
}

/// Where an entry of the given season goes into `sorted`: behind the last
/// entry whose season is not greater.
pub open spec fn insert_point(sorted: Seq<Media>, season: i8) -> int
    decreases sorted.len(),
{
    if sorted.len() == 0 {
        0
    } else if sorted.last().season <= season {
        sorted.len() as int
    } else {
        insert_point(sorted.drop_last(), season)
    }
}

/// `media` ordered by season. The entries are taken in order and each goes
/// behind those of the same season that came before it.
pub open spec fn by_season(media: Seq<Media>) -> Seq<Media>
    decreases media.len(),
{
    if media.len() == 0 {
        Seq::empty()
    } else {
        let front = by_season(media.drop_last());
        front.insert(insert_point(front, media.last().season), media.last())
    }
}

/// The insert point lies within the sequence, and every entry from it on
/// has a greater season; in an ordered sequence no entry before it has.
pub proof fn lemma_insert_point(sorted: Seq<Media>, season: i8)
    ensures
        0 <= insert_point(sorted, season) <= sorted.len(),
        forall|i: int|
            insert_point(sorted, season) <= i < sorted.len() ==> (#[trigger] sorted[i]).season
                > season,
        is_by_season(sorted) ==> forall|i: int|
            0 <= i < insert_point(sorted, season) ==> (#[trigger] sorted[i]).season <= season,
    decreases sorted.len(),
{
    if sorted.len() > 0 && sorted.last().season > season {
        let front = sorted.drop_last();
        lemma_insert_point(front, season);
        assert forall|i: int| insert_point(sorted, season) <= i < sorted.len() implies (
        #[trigger] sorted[i]).season > season by {
            if i < front.len() {
                assert(front[i] == sorted[i]);
            }
        }
        if is_by_season(sorted) {
            assert forall|i: int, j: int| 0 <= i <= j < front.len() implies (
            #[trigger] front[i]).season <= (#[trigger] front[j]).season by {
                assert(front[i] == sorted[i]);
                assert(front[j] == sorted[j]);
            }
            assert forall|i: int| 0 <= i < insert_point(sorted, season) implies (
            #[trigger] sorted[i]).season <= season by {
                assert(front[i] == sorted[i]);
            }
        }
    } else if sorted.len() > 0 {
        if is_by_season(sorted) {
            assert forall|i: int| 0 <= i < sorted.len() implies (#[trigger] sorted[i]).season
                <= season by {
                assert(sorted[i].season <= sorted[sorted.len() - 1].season);
            }
        }
    }
}

/// `by_season` gives the same entries, each as often as before, with
/// seasons that never go down.
pub proof fn lemma_by_season(media: Seq<Media>)
    ensures
        by_season(media).len() == media.len(),
        by_season(media).to_multiset() == media.to_multiset(),
        is_by_season(by_season(media)),
    decreases media.len(),
{
    if media.len() > 0 {
        let front = by_season(media.drop_last());
        let last = media.last();
        let at = insert_point(front, last.season);
        let all = by_season(media);
        lemma_by_season(media.drop_last());
        lemma_insert_point(front, last.season);
        vstd::seq_lib::to_multiset_insert(front, at, last);
        assert(media == media.drop_last().push(last));
        vstd::seq_lib::to_multiset_build(media.drop_last(), last);
        assert forall|i: int, j: int| 0 <= i <= j < all.len() implies (#[trigger] all[i]).season <= (
        #[trigger] all[j]).season by {
            if i < at && j < at {
                assert(all[i] == front[i] && all[j] == front[j]);
            } else if i < at && j == at {
                assert(all[i] == front[i]);
            } else if i < at {
                assert(all[i] == front[i] && all[j] == front[j - 1]);
            } else if i == at && j > at {
                assert(all[j] == front[j - 1]);
            } else if i > at {
                assert(all[i] == front[i - 1] && all[j] == front[j - 1]);
            }
        }
    } else {
        assert(by_season(media) == media);
    }
}

/// `distinct` repeats nothing and holds exactly the names it was given.
pub proof fn lemma_distinct(names: Seq<Seq<char>>)
    ensures
        distinct(names).no_duplicates(),
        forall|name: Seq<char>| distinct(names).contains(name) <==> names.contains(name),
    decreases names.len(),
{
    if names.len() > 0 {
        let front = names.drop_last();
        let last = names.last();
        lemma_distinct(front);
        let kept = distinct(front);
        assert forall|name: Seq<char>| distinct(names).contains(name) <==> names.contains(
            name,
        ) by {
            assert(kept.contains(name) <==> front.contains(name));
            assert(names.contains(name) <==> front.contains(name) || last == name) by {
                if front.contains(name) {
                    let j = choose|j: int| 0 <= j < front.len() && front[j] == name;
                    assert(names[j] == name);
                }
                if last == name {
                    assert(names[names.len() - 1] == name);
                }
                if names.contains(name) {
                    let j = choose|j: int| 0 <= j < names.len() && names[j] == name;
                    if j < front.len() {
                        assert(front[j] == name);
                    }
                }
            }
            if !kept.contains(last) {
                let pushed = kept.push(last);
                assert(pushed.contains(name) <==> kept.contains(name) || last == name) by {
                    if kept.contains(name) {
                        let i = choose|i: int| 0 <= i < kept.len() && kept[i] == name;
                        assert(pushed[i] == name);
                    }
                    if last == name {
                        assert(pushed[kept.len() as int] == name);
                    }
                    if pushed.contains(name) {
                        let i = choose|i: int| 0 <= i < pushed.len() && pushed[i] == name;
                        if i < kept.len() {
                            assert(kept[i] == name);
                        }
                    }
                }
            }
        }
    }
}

/// Every entry of `titled` has the title asked for, and its length is at most that of the
/// catalog.
pub proof fn lemma_titled(media: Seq<Media>, name: Seq<char>)
    ensures
        titled(media, name).len() <= media.len(),
        forall|i: int|
            0 <= i < titled(media, name).len() ==> (#[trigger] titled(media, name)[i]).name@
                == name && media.contains(titled(media, name)[i]),
    decreases media.len(),
{
    if media.len() > 0 {
        let front = media.drop_last();
        lemma_titled(front, name);
        assert forall|i: int| 0 <= i < titled(media, name).len() implies (#[trigger] titled(
            media,
            name,
        )[i]).name@ == name && media.contains(titled(media, name)[i]) by {
            if i < titled(front, name).len() {
                let m = titled(front, name)[i];
                assert(front.contains(m));
                let j = choose|j: int| 0 <= j < front.len() && front[j] == m;
                assert(media[j] == m);
            } else {
                assert(media[media.len() - 1] == media.last());
            }
        }
    }
}

impl Medias {
    /// The titles of the catalog, each once, in the order in which they
    /// first occur.
    pub fn get_name(&self) -> (names: Vec<String>)
        ensures
            texts(names@) == distinct(titles(self.media@)),
    {
        let mut names: Vec<String> = Vec::new();
        let mut i: usize = 0;
        while i < self.media.len()
            invariant
                i <= self.media.len(),
                texts(names@) == distinct(titles(self.media@).take(i as int)),
            decreases self.media.len() - i,
        {
            let name = &self.media[i].name;
            let known = holds(&names, name);
            proof {
                let upto = titles(self.media@).take(i + 1);
                assert(upto.drop_last() == titles(self.media@).take(i as int));
                assert(upto.last() == name@);
            }
            if !known {
                let ghost before = names@;
                names.push(name.clone());
                assert(texts(names@) == texts(before).push(name@));
            }
            i += 1;
        }
        assert(titles(self.media@).take(i as int) == titles(self.media@));
        names
    }

    /// The seasons whose title is `name`, in catalog order.
    pub fn get_seasons_from_str(self, name: &str) -> (seasons: Vec<Media>)
        ensures
            seasons@ == titled(self.media@, name@),
    {
        let wanted = name.to_owned();
        let ghost all = self.media@;
        let mut seasons: Vec<Media> = Vec::new();
        for m in it: self.media
            invariant
                it.seq() == all,
                wanted@ == name@,
                seasons@ == titled(all.take(it.index() as int), name@),
        {
            proof {
                let upto = all.take(it.index() + 1);
                assert(upto.drop_last() == all.take(it.index() as int));
                assert(upto.last() == m);
            }
            if m.name == wanted {
                seasons.push(m);
            }
        }
        assert(all.take(all.len() as int) == all);
        seasons
    }
}

/// Whether some season is offered in the language `lang`.
pub fn has_language(seasons: &Vec<Media>, lang: &str) -> (r: bool)
    ensures
        r == offers(seasons@, lang@),
{
    let wanted = lang.to_owned();
    let mut i: usize = 0;
    while i < seasons.len()
        invariant
            i <= seasons.len(),
            wanted@ == lang@,
            forall|k: int| 0 <= k < i ==> (#[trigger] seasons[k]).lang@ != lang@,
        decreases seasons.len() - i,
    {
        if seasons[i].lang == wanted {
            return true;
        }
        i += 1;
    }
    false
}

/// The seasons in the language `lang`, in the order given.
pub fn in_language(seasons: Vec<Media>, lang: &str) -> (kept: Vec<Media>)
    ensures
        kept@ == spoken(seasons@, lang@),
{
    let wanted = lang.to_owned();
    let ghost all = seasons@;
    let mut kept: Vec<Media> = Vec::new();
    for m in it: seasons
        invariant
            it.seq() == all,
            wanted@ == lang@,
            kept@ == spoken(all.take(it.index() as int), lang@),
    {
        proof {
            let upto = all.take(it.index() + 1);
            assert(upto.drop_last() == all.take(it.index() as int));
            assert(upto.last() == m);
        }
        if m.lang == wanted {
            kept.push(m);
        }
    }
    assert(all.take(all.len() as int) == all);
    kept
}

/// The seasons ordered by their number; seasons of the same number keep
/// the order in which they were given.
pub fn sort_by_season(seasons: Vec<Media>) -> (sorted: Vec<Media>)
    ensures
        sorted@ == by_season(seasons@),
        sorted.len() == seasons.len(),
        is_by_season(sorted@),
{
    let ghost all = seasons@;
    let mut sorted: Vec<Media> = Vec::new();
    for m in it: seasons
        invariant
            it.seq() == all,
            sorted@ == by_season(all.take(it.index() as int)),
    {
        proof {
            let upto = all.take(it.index() + 1);
            assert(upto.drop_last() == all.take(it.index() as int));
            assert(upto.last() == m);
        }
        let mut at: usize = sorted.len();
        assert(sorted@.take(at as int) == sorted@);
        while at > 0 && sorted[at - 1].season > m.season
            invariant
                at <= sorted.len(),
                insert_point(sorted@, m.season) == insert_point(sorted@.take(at as int), m.season),
            decreases at,
        {
            proof {
                let upto = sorted@.take(at as int);
                assert(upto.drop_last() == sorted@.take(at - 1));
            }
            at -= 1;
        }
        proof {
            let upto = sorted@.take(at as int);
            if at > 0 {
                assert(upto.last() == sorted@[at - 1]);
            }
        }
        sorted.insert(at, m);
    }
    proof {
        assert(all.take(all.len() as int) == all);
        lemma_by_season(all);
    }
    sorted
}

/// Whether `names` holds a string with the text of `name`.
fn holds(names: &Vec<String>, name: &String) -> (r: bool)
    ensures
        r == texts(names@).contains(name@),
{
    let mut i: usize = 0;
    while i < names.len()
        invariant
            i <= names.len(),
            forall|k: int| 0 <= k < i ==> names[k]@ != name@,
        decreases names.len() - i,
    {
        if names[i] == *name {
            assert(texts(names@)[i as int] == name@);
            return true;
        }
        i += 1;
    }
    assert forall|k: int| 0 <= k < texts(names@).len() implies texts(names@)[k] != name@ by {
        assert(names[k]@ != name@);
    }
    false
}

} // verus!
