//! Where links lead, and what file modes say.
use vstd::prelude::*;

use crate::links::{
    components, escapes, followed, leads_out, lies_in, Home, PlaceModel, TokModel,
};
use crate::mode::{is_link_mode, lacks_write};

verus! {

/// A step to a name enters it, a step up leaves the last name, a step to the
/// root leaves all, and a step to where one is changes nothing. A link is
/// replaced by what it leads to, from the directory that it lies in.
pub proof fn law_steps_on_a_way(
    rooted: bool,
    names: Seq<Seq<u8>>,
    name: Seq<u8>,
    rest: Seq<TokModel>,
    guard: nat,
    links: spec_fn(PlaceModel) -> Option<Seq<TokModel>>,
)
    ensures
        ({
            let at = PlaceModel { rooted, names };
            let here = PlaceModel { rooted, names: names.push(name) };
            &&& followed(at, Seq::empty(), guard, links) == at
            &&& followed(at, seq![TokModel::CurDir] + rest, guard, links) == followed(
                at,
                rest,
                guard,
                links,
            )
            &&& followed(here, seq![TokModel::ParentDir] + rest, guard, links) == followed(
                at,
                rest,
                guard,
                links,
            )
            &&& followed(
                PlaceModel { rooted, names: Seq::empty() },
                seq![TokModel::ParentDir] + rest,
                guard,
                links,
            ) == followed(PlaceModel { rooted, names: Seq::empty() }, rest, guard, links)
            &&& followed(at, seq![TokModel::Root] + rest, guard, links) == followed(
                PlaceModel { rooted: true, names: Seq::empty() },
                rest,
                guard,
                links,
            )
            &&& guard > 0 && links(here) is None ==> followed(
                at,
                seq![TokModel::Normal(name)] + rest,
                guard,
                links,
            ) == followed(here, rest, guard, links)
            &&& guard > 0 ==> (links(here) matches Some(target) ==> followed(
                at,
                seq![TokModel::Normal(name)] + rest,
                guard,
                links,
            ) == followed(at, target + rest, (guard - 1) as nat, links))
            &&& followed(at, seq![TokModel::Normal(name)] + rest, 0, links) == here
        }),
{
    let at = PlaceModel { rooted, names };
    assert((seq![TokModel::CurDir] + rest).skip(1) =~= rest);
    assert((seq![TokModel::ParentDir] + rest).skip(1) =~= rest);
    assert((seq![TokModel::Root] + rest).skip(1) =~= rest);
    assert((seq![TokModel::Normal(name)] + rest).skip(1) =~= rest);
    assert(names.push(name).drop_last() =~= names);
}

proof fn lemma_names_without_links(
    at: PlaceModel,
    names: Seq<Seq<u8>>,
    guard: nat,
    links: spec_fn(PlaceModel) -> Option<Seq<TokModel>>,
)
    requires
        guard > 0,
        forall|p: PlaceModel| #[trigger] links(p) is None,
    ensures
        followed(at, names.map_values(|n: Seq<u8>| TokModel::Normal(n)), guard, links) == (
        PlaceModel { names: at.names + names, ..at }),
    decreases names.len(),
{
    let toks = names.map_values(|n: Seq<u8>| TokModel::Normal(n));
    if names.len() == 0 {
        assert(at.names + names =~= at.names);
    } else {
        let here = PlaceModel { names: at.names.push(names[0]), ..at };
        assert(links(here) is None);
        assert(toks.skip(1) =~= names.skip(1).map_values(|n: Seq<u8>| TokModel::Normal(n)));
        lemma_names_without_links(here, names.skip(1), guard, links);
        assert(at.names.push(names[0]) + names.skip(1) =~= at.names + names);
    }
}

/// Where there are no links, names lead down from where one is, and an absolute
/// path leads to itself.
pub proof fn law_names_lead_down(
    at: PlaceModel,
    names: Seq<Seq<u8>>,
    guard: nat,
    links: spec_fn(PlaceModel) -> Option<Seq<TokModel>>,
)
    requires
        guard > 0,
        forall|p: PlaceModel| #[trigger] links(p) is None,
    ensures
        followed(at, components(PlaceModel { rooted: false, names }), guard, links) == (PlaceModel {
            names: at.names + names,
            ..at
        }),
        followed(at, components(PlaceModel { rooted: true, names }), guard, links) == (PlaceModel {
            rooted: true,
            names,
        }),
{
    let toks = names.map_values(|n: Seq<u8>| TokModel::Normal(n));
    lemma_names_without_links(at, names, guard, links);
    assert(components(PlaceModel { rooted: false, names }) =~= toks);
    let all = components(PlaceModel { rooted: true, names });
    assert(all =~= seq![TokModel::Root] + toks);
    assert(all.skip(1) =~= toks);
    lemma_names_without_links(
        PlaceModel { rooted: true, names: Seq::empty() },
        names,
        guard,
        links,
    );
    assert(Seq::<Seq<u8>>::empty() + names =~= names);
}

/// A place lies in a directory if its path is that of the directory and more, or
/// the same.
pub proof fn law_places_in_a_directory(dir: Seq<Seq<u8>>, more: Seq<Seq<u8>>, p: PlaceModel)
    ensures
        lies_in(PlaceModel { rooted: true, names: dir + more }, dir),
        !lies_in(PlaceModel { rooted: false, names: dir + more }, dir),
        lies_in(p, dir) ==> p.rooted && p.names == dir + p.names.skip(dir.len() as int),
        p.names.len() < dir.len() ==> !lies_in(p, dir),
{
    assert((dir + more).take(dir.len() as int) =~= dir);
    if lies_in(p, dir) {
        assert(p.names =~= p.names.take(dir.len() as int) + p.names.skip(dir.len() as int));
    }
}

/// A path escapes if a directory on it is a link that leads out of the working
/// directory, and a link at its end does not count: the file itself is looked
/// at apart. So a name alone never escapes, and a file in a directory escapes if
/// and only if the directory is such a link.
pub proof fn law_links_that_lead_out(
    dir: Seq<u8>,
    file: Seq<u8>,
    home: Home,
    marks: spec_fn(PlaceModel) -> bool,
    links: spec_fn(PlaceModel) -> Option<Seq<TokModel>>,
)
    ensures
        !escapes(seq![TokModel::Normal(file)], home, marks, links),
        ({
            let place = PlaceModel { rooted: false, names: seq![dir] };
            escapes(seq![TokModel::Normal(dir), TokModel::Normal(file)], home, marks, links) == (
            marks(place) && leads_out(place, home, links))
        }),
        escapes(
            seq![TokModel::CurDir, TokModel::Normal(dir), TokModel::Normal(file)],
            home,
            marks,
            links,
        ) == escapes(seq![TokModel::Normal(dir), TokModel::Normal(file)], home, marks, links),
{
    reveal_with_fuel(crate::links::escapes_from, 4);
    let none = Seq::<Seq<u8>>::empty();
    assert(none.push(dir) =~= seq![dir]);
}

/// A link in the working directory leads out if and only if it leads to an
/// absolute path that is not in the working directory. A link to names below the
/// directory that it lies in never does.
pub proof fn law_where_a_link_leads(
    link: Seq<u8>,
    target: Seq<Seq<u8>>,
    home: Home,
    links: spec_fn(PlaceModel) -> Option<Seq<TokModel>>,
    absolute: bool,
)
    requires
        home.cwd == home.canonical,
        forall|p: PlaceModel|
            #[trigger] links(p) == if p == (PlaceModel {
                rooted: true,
                names: home.cwd.push(link),
            }) {
                Some(components(PlaceModel { rooted: absolute, names: target }))
            } else {
                None
            },
        absolute ==> !(home.cwd.push(link).is_prefix_of(target)),
        !absolute ==> target.len() == 0 || target[0] != link,
    ensures
        leads_out(PlaceModel { rooted: false, names: seq![link] }, home, links) == (absolute
            && !home.cwd.is_prefix_of(target)),
{
    let start = PlaceModel { rooted: true, names: home.cwd };
    let here = PlaceModel { rooted: true, names: home.cwd.push(link) };
    let way = components(PlaceModel { rooted: false, names: seq![link] });
    assert(way =~= seq![TokModel::Normal(link)] + Seq::<TokModel>::empty());
    assert(way.skip(1) =~= Seq::<TokModel>::empty());
    let toks = components(PlaceModel { rooted: absolute, names: target });
    assert(toks + Seq::<TokModel>::empty() =~= toks);
    let guard = (crate::links::MAX_LINKS - 1) as nat;
    assert(followed(start, way, crate::links::MAX_LINKS as nat, links) == followed(
        start,
        toks,
        guard,
        links,
    ));
    let names = target.map_values(|n: Seq<u8>| TokModel::Normal(n));
    if absolute {
        assert(toks =~= seq![TokModel::Root] + names);
        assert(toks.skip(1) =~= names);
        let none = Seq::<Seq<u8>>::empty();
        assert forall|k: int| 0 <= k < target.len() implies #[trigger] (none + target.take(k + 1))
            != here.names by {
            assert(none + target.take(k + 1) =~= target.take(k + 1));
            if none + target.take(k + 1) == here.names {
                assert(here.names =~= target.subrange(0, here.names.len() as int));
                assert(home.cwd.push(link).is_prefix_of(target));
            }
        }
        lemma_names_beside_a_link(
            PlaceModel { rooted: true, names: none },
            target,
            here,
            guard,
            links,
        );
        assert(none + target =~= target);
        if home.cwd.is_prefix_of(target) {
            assert(target.take(home.cwd.len() as int) =~= home.cwd);
        } else if lies_in(PlaceModel { rooted: true, names: target }, home.canonical) {
            assert(target.subrange(0, home.cwd.len() as int) =~= target.take(
                home.cwd.len() as int,
            ));
            assert(home.cwd.is_prefix_of(target));
        }
    } else {
        assert(toks =~= names);
        assert forall|k: int| 0 <= k < target.len() implies #[trigger] (start.names + target.take(
            k + 1,
        )) != here.names by {
            let way = start.names + target.take(k + 1);
            if way == here.names {
                assert(way[home.cwd.len() as int] == target[0]);
                assert(here.names[home.cwd.len() as int] == link);
            }
        }
        lemma_names_beside_a_link(start, target, here, guard, links);
        assert((home.cwd + target).take(home.cwd.len() as int) =~= home.cwd);
    }
}

/// Every directory on a path counts, in its own place: below the one before it,
/// beside it after a step up, and at the root after a step there.
pub proof fn law_every_directory_counts(
    a: Seq<u8>,
    b: Seq<u8>,
    file: Seq<u8>,
    home: Home,
    marks: spec_fn(PlaceModel) -> bool,
    links: spec_fn(PlaceModel) -> Option<Seq<TokModel>>,
)
    ensures
        ({
            let one = PlaceModel { rooted: false, names: seq![a] };
            let two = PlaceModel { rooted: false, names: seq![a, b] };
            let beside = PlaceModel { rooted: false, names: seq![b] };
            let top = PlaceModel { rooted: true, names: seq![a] };
            &&& escapes(
                seq![TokModel::Normal(a), TokModel::Normal(b), TokModel::Normal(file)],
                home,
                marks,
                links,
            ) == ((marks(one) && leads_out(one, home, links)) || (marks(two) && leads_out(
                two,
                home,
                links,
            )))
            &&& escapes(
                seq![
                    TokModel::Normal(a),
                    TokModel::ParentDir,
                    TokModel::Normal(b),
                    TokModel::Normal(file),
                ],
                home,
                marks,
                links,
            ) == ((marks(one) && leads_out(one, home, links)) || (marks(beside) && leads_out(
                beside,
                home,
                links,
            )))
            &&& escapes(
                seq![TokModel::Root, TokModel::Normal(a), TokModel::Normal(file)],
                home,
                marks,
                links,
            ) == (marks(top) && leads_out(top, home, links))
        }),
{
    reveal_with_fuel(crate::links::escapes_from, 5);
    let none = Seq::<Seq<u8>>::empty();
    assert(none.push(a) =~= seq![a]);
    assert(none.push(b) =~= seq![b]);
    assert(none.push(a).push(b) =~= seq![a, b]);
    assert(none.push(a).drop_last() =~= none);
}

/// A link from the working directory to the directory above it leads out.
pub proof fn law_links_upward_lead_out(
    link: Seq<u8>,
    home: Home,
    links: spec_fn(PlaceModel) -> Option<Seq<TokModel>>,
)
    requires
        home.cwd == home.canonical,
        home.cwd.len() > 0,
        links(PlaceModel { rooted: true, names: home.cwd.push(link) }) == Some(
            seq![TokModel::ParentDir],
        ),
    ensures
        leads_out(PlaceModel { rooted: false, names: seq![link] }, home, links),
{
    let way = components(PlaceModel { rooted: false, names: seq![link] });
    assert(way =~= seq![TokModel::Normal(link)]);
    assert(way.skip(1) =~= Seq::<TokModel>::empty());
    let up = seq![TokModel::ParentDir];
    assert(up + Seq::<TokModel>::empty() =~= up);
    assert(up.skip(1) =~= Seq::<TokModel>::empty());
    reveal_with_fuel(followed, 4);
}

proof fn lemma_names_beside_a_link(
    at: PlaceModel,
    names: Seq<Seq<u8>>,
    link: PlaceModel,
    guard: nat,
    links: spec_fn(PlaceModel) -> Option<Seq<TokModel>>,
)
    requires
        guard > 0,
        forall|p: PlaceModel| p != link ==> #[trigger] links(p) is None,
        forall|k: int|
            0 <= k < names.len() ==> #[trigger] (at.names + names.take(k + 1)) != link.names,
    ensures
        followed(at, names.map_values(|n: Seq<u8>| TokModel::Normal(n)), guard, links) == (
        PlaceModel { names: at.names + names, ..at }),
    decreases names.len(),
{
    let toks = names.map_values(|n: Seq<u8>| TokModel::Normal(n));
    if names.len() == 0 {
        assert(at.names + names =~= at.names);
    } else {
        let here = PlaceModel { names: at.names.push(names[0]), ..at };
        assert(at.names + names.take(0int + 1) =~= here.names);
        assert(links(here) is None);
        assert(toks.skip(1) =~= names.skip(1).map_values(|n: Seq<u8>| TokModel::Normal(n)));
        assert forall|k: int| 0 <= k < names.skip(1).len() implies #[trigger] (here.names
            + names.skip(1).take(k + 1)) != link.names by {
            assert(here.names + names.skip(1).take(k + 1) =~= at.names + names.take(k + 1 + 1));
        }
        lemma_names_beside_a_link(here, names.skip(1), link, guard, links);
        assert(at.names.push(names[0]) + names.skip(1) =~= at.names + names);
    }
}

/// The owner may write a file if the second of the three digits of the mode for
/// the owner is set; and a mode is that of a link if its first digits are twelve
/// in octal.
pub proof fn law_bits_of_a_mode(m: u32)
    ensures
        lacks_write(m) == ((m / 128) % 2 == 0),
        is_link_mode(Some(m)) == ((m / 4096) % 16 == 10),
        !is_link_mode(None),
{
    assert((m & 0o200 == 0) == ((m / 128) % 2 == 0)) by (bit_vector);
    assert((m & 0o170000 == 0o120000) == ((m / 4096) % 16 == 10)) by (bit_vector);
}

} // verus!
