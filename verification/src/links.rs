//! Whether a path leads out of the working directory through a symbolic link.
//!
//! The walk along a path asks one question at a time about the file system and
//! goes on with the answer. Names are bytes, as the file system has them.
use vstd::prelude::*;

verus! {

/// How many links are followed from one link on.
pub const MAX_LINKS: u32 = 40;

/// A component of a path.
#[derive(Debug)]
pub enum Tok {
    CurDir,
    ParentDir,
    Root,
    Normal(Vec<u8>),
}

/// A component with its name.
pub enum TokModel {
    CurDir,
    ParentDir,
    Root,
    Normal(Seq<u8>),
}

impl View for Tok {
    type V = TokModel;

    open spec fn view(&self) -> TokModel {
        match self {
            Tok::CurDir => TokModel::CurDir,
            Tok::ParentDir => TokModel::ParentDir,
            Tok::Root => TokModel::Root,
            Tok::Normal(n) => TokModel::Normal(n@),
        }
    }
}

/// The models of components.
pub open spec fn tok_models(toks: Seq<Tok>) -> Seq<TokModel> {
    Seq::new(toks.len(), |i: int| toks[i]@)
}

/// The models of names.
pub open spec fn name_models(names: Seq<Vec<u8>>) -> Seq<Seq<u8>> {
    Seq::new(names.len(), |i: int| names[i]@)
}

/// A path of plain names, from the root or from the working directory.
#[derive(Debug)]
pub struct Place {
    pub rooted: bool,
    pub names: Vec<Vec<u8>>,
}

/// A place with its names.
pub struct PlaceModel {
    pub rooted: bool,
    pub names: Seq<Seq<u8>>,
}

impl View for Place {
    type V = PlaceModel;

    open spec fn view(&self) -> PlaceModel {
        PlaceModel { rooted: self.rooted, names: name_models(self.names@) }
    }
}

/// The directory above a place. There is none above the root.
pub open spec fn above(p: PlaceModel) -> PlaceModel {
    if p.names.len() == 0 {
        p
    } else {
        PlaceModel { names: p.names.drop_last(), ..p }
    }
}

/// The place with this name in a directory.
pub open spec fn entered(p: PlaceModel, name: Seq<u8>) -> PlaceModel {
    PlaceModel { names: p.names.push(name), ..p }
}

/// The root directory.
pub open spec fn root() -> PlaceModel {
    PlaceModel { rooted: true, names: Seq::empty() }
}

/// The components of a place.
pub open spec fn components(p: PlaceModel) -> Seq<TokModel> {
    let names = Seq::new(p.names.len(), |i: int| TokModel::Normal(p.names[i]));
    if p.rooted {
        seq![TokModel::Root] + names
    } else {
        names
    }
}

/// The place lies in the directory with these names from the root.
pub open spec fn lies_in(p: PlaceModel, dir: Seq<Seq<u8>>) -> bool {
    p.rooted && dir.len() <= p.names.len() && p.names.take(dir.len() as int) == dir
}

/// Where components lead from a place, with every link on the way followed,
/// but no more than `guard` of them. `links` gives the components of the
/// target of each link.
pub open spec fn followed(
    at: PlaceModel,
    toks: Seq<TokModel>,
    guard: nat,
    links: spec_fn(PlaceModel) -> Option<Seq<TokModel>>,
) -> PlaceModel
    decreases guard, toks.len(),
{
    if toks.len() == 0 {
        at
    } else {
        let rest = toks.skip(1);
        match toks[0] {
            TokModel::CurDir => followed(at, rest, guard, links),
            TokModel::ParentDir => followed(above(at), rest, guard, links),
            TokModel::Root => followed(root(), rest, guard, links),
            TokModel::Normal(name) => {
                let here = entered(at, name);
                if guard == 0 {
                    here
                } else {
                    match links(here) {
                        Some(target) => followed(at, target + rest, (guard - 1) as nat, links),
                        None => followed(here, rest, guard, links),
                    }
                }
            },
        }
    }
}

/// How many links are followed on the way.
pub open spec fn links_on_the_way(
    at: PlaceModel,
    toks: Seq<TokModel>,
    guard: nat,
    links: spec_fn(PlaceModel) -> Option<Seq<TokModel>>,
) -> nat
    decreases guard, toks.len(),
{
    if toks.len() == 0 {
        0
    } else {
        let rest = toks.skip(1);
        match toks[0] {
            TokModel::CurDir => links_on_the_way(at, rest, guard, links),
            TokModel::ParentDir => links_on_the_way(above(at), rest, guard, links),
            TokModel::Root => links_on_the_way(root(), rest, guard, links),
            TokModel::Normal(name) => {
                let here = entered(at, name);
                if guard == 0 {
                    0
                } else {
                    match links(here) {
                        Some(target) => 1 + links_on_the_way(
                            at,
                            target + rest,
                            (guard - 1) as nat,
                            links,
                        ),
                        None => links_on_the_way(here, rest, guard, links),
                    }
                }
            },
        }
    }
}

/// No more links are followed than the bound, however they lead around.
pub proof fn law_links_are_bounded(
    at: PlaceModel,
    toks: Seq<TokModel>,
    guard: nat,
    links: spec_fn(PlaceModel) -> Option<Seq<TokModel>>,
)
    ensures
        links_on_the_way(at, toks, guard, links) <= guard,
    decreases guard, toks.len(),
{
    if toks.len() > 0 {
        let rest = toks.skip(1);
        match toks[0] {
            TokModel::CurDir => law_links_are_bounded(at, rest, guard, links),
            TokModel::ParentDir => law_links_are_bounded(above(at), rest, guard, links),
            TokModel::Root => law_links_are_bounded(root(), rest, guard, links),
            TokModel::Normal(name) => {
                let here = entered(at, name);
                if guard > 0 {
                    match links(here) {
                        Some(target) => law_links_are_bounded(
                            at,
                            target + rest,
                            (guard - 1) as nat,
                            links,
                        ),
                        None => law_links_are_bounded(here, rest, guard, links),
                    }
                }
            },
        }
    }
}

/// The working directory: its name, and its name without links.
pub struct Home {
    pub cwd: Seq<Seq<u8>>,
    pub canonical: Seq<Seq<u8>>,
}

/// A link leads out of the working directory.
pub open spec fn leads_out(
    p: PlaceModel,
    home: Home,
    links: spec_fn(PlaceModel) -> Option<Seq<TokModel>>,
) -> bool {
    !lies_in(
        followed(
            PlaceModel { rooted: true, names: home.cwd },
            components(p),
            MAX_LINKS as nat,
            links,
        ),
        home.canonical,
    )
}

/// From component `i` on, a directory on the path is a link that leads out of
/// the working directory. `at` is where the components before lead, and
/// `marks` tells which places are links. The last component is not looked at.
pub open spec fn escapes_from(
    path: Seq<TokModel>,
    i: int,
    at: PlaceModel,
    home: Home,
    marks: spec_fn(PlaceModel) -> bool,
    links: spec_fn(PlaceModel) -> Option<Seq<TokModel>>,
) -> bool
    decreases path.len() - i,
{
    if i + 1 >= path.len() {
        false
    } else {
        match path[i] {
            TokModel::CurDir => escapes_from(path, i + 1, at, home, marks, links),
            TokModel::ParentDir => escapes_from(path, i + 1, above(at), home, marks, links),
            TokModel::Root => escapes_from(path, i + 1, root(), home, marks, links),
            TokModel::Normal(name) => {
                let here = entered(at, name);
                (marks(here) && leads_out(here, home, links)) || escapes_from(
                    path,
                    i + 1,
                    here,
                    home,
                    marks,
                    links,
                )
            },
        }
    }
}

/// A directory on the path is a link that leads out of the working directory.
pub open spec fn escapes(
    path: Seq<TokModel>,
    home: Home,
    marks: spec_fn(PlaceModel) -> bool,
    links: spec_fn(PlaceModel) -> Option<Seq<TokModel>>,
) -> bool {
    escapes_from(path, 0, PlaceModel { rooted: false, names: Seq::empty() }, home, marks, links)
}

/// A path without a link among its directories does not lead out.
pub proof fn law_no_links_no_escape(
    path: Seq<TokModel>,
    i: int,
    at: PlaceModel,
    home: Home,
    marks: spec_fn(PlaceModel) -> bool,
    links: spec_fn(PlaceModel) -> Option<Seq<TokModel>>,
)
    requires
        forall|p: PlaceModel| !#[trigger] marks(p),
    ensures
        !escapes_from(path, i, at, home, marks, links),
    decreases path.len() - i,
{
    if i + 1 < path.len() {
        match path[i] {
            TokModel::CurDir => law_no_links_no_escape(path, i + 1, at, home, marks, links),
            TokModel::ParentDir => law_no_links_no_escape(
                path,
                i + 1,
                above(at),
                home,
                marks,
                links,
            ),
            TokModel::Root => law_no_links_no_escape(path, i + 1, root(), home, marks, links),
            TokModel::Normal(name) => law_no_links_no_escape(
                path,
                i + 1,
                entered(at, name),
                home,
                marks,
                links,
            ),
        }
    }
}

// ---------------------------------------------------------------------------
// The walk
// ---------------------------------------------------------------------------

/// What the walk is about to do.
#[derive(Debug, Clone, Copy, PartialEq, Eq, Structural)]
pub enum Phase {
    /// To look at the next component.
    Walking,
    /// To learn whether the place is a link.
    Marking,
    /// To follow the components of a link.
    Following,
    /// To learn where a link on the way leads, if it is one.
    Linking,
}

/// A walk along a path.
#[derive(Debug)]
pub struct Walk {
    path: Vec<Tok>,
    cwd: Vec<Vec<u8>>,
    canonical: Vec<Vec<u8>>,
    phase: Phase,
    /// The next component.
    next: usize,
    /// Where the components before lead.
    at: Place,
    /// Where following a link has led.
    resolved: Place,
    /// The components still to follow.
    pending: Vec<Tok>,
    /// How many links may still be followed.
    guard: u32,
}

/// A walk with its names.
pub struct WalkModel {
    pub path: Seq<TokModel>,
    pub home: Home,
    pub phase: Phase,
    pub next: int,
    pub at: PlaceModel,
    pub resolved: PlaceModel,
    pub pending: Seq<TokModel>,
    pub guard: nat,
}

impl View for Walk {
    type V = WalkModel;

    closed spec fn view(&self) -> WalkModel {
        WalkModel {
            path: tok_models(self.path@),
            home: Home {
                cwd: name_models(self.cwd@),
                canonical: name_models(self.canonical@),
            },
            phase: self.phase,
            next: self.next as int,
            at: self.at@,
            resolved: self.resolved@,
            pending: tok_models(self.pending@),
            guard: self.guard as nat,
        }
    }
}

/// What the walk finds in the end, when `marks` and `links` tell about the file
/// system.
pub open spec fn outcome(
    w: WalkModel,
    marks: spec_fn(PlaceModel) -> bool,
    links: spec_fn(PlaceModel) -> Option<Seq<TokModel>>,
) -> bool {
    let later = escapes_from(w.path, w.next, w.at, w.home, marks, links);
    match w.phase {
        Phase::Walking => later,
        Phase::Marking => (marks(w.at) && leads_out(w.at, w.home, links)) || later,
        Phase::Following => !lies_in(
            followed(w.resolved, w.pending, w.guard, links),
            w.home.canonical,
        ) || later,
        Phase::Linking => {
            let end = match links(w.resolved) {
                Some(target) => followed(
                    above(w.resolved),
                    target + w.pending,
                    (w.guard - 1) as nat,
                    links,
                ),
                None => followed(w.resolved, w.pending, w.guard, links),
            };
            !lies_in(end, w.home.canonical) || later
        },
    }
}

/// The walk is on its path, and may follow the link that it asks about.
pub open spec fn on_its_way(w: WalkModel) -> bool {
    w.next <= w.path.len() && (w.phase == Phase::Linking ==> w.guard > 0)
}

/// The walk once it is known whether the place is a link.
pub open spec fn after_mark(w: WalkModel, is_link: bool) -> WalkModel {
    if is_link {
        WalkModel {
            phase: Phase::Following,
            resolved: PlaceModel { rooted: true, names: w.home.cwd },
            pending: components(w.at),
            guard: MAX_LINKS as nat,
            ..w
        }
    } else {
        WalkModel { phase: Phase::Walking, ..w }
    }
}

/// The walk once it is known where the link leads, if the place is one.
pub open spec fn after_link(w: WalkModel, target: Option<Seq<TokModel>>) -> WalkModel {
    match target {
        Some(toks) => WalkModel {
            phase: Phase::Following,
            resolved: above(w.resolved),
            pending: toks + w.pending,
            guard: (w.guard - 1) as nat,
            ..w
        },
        None => WalkModel { phase: Phase::Following, ..w },
    }
}

/// The components of a path that may be absent.
pub open spec fn opt_tok_models(target: Option<Vec<Tok>>) -> Option<Seq<TokModel>> {
    match target {
        Some(toks) => Some(tok_models(toks@)),
        None => None,
    }
}

/// What the walk wants to know.
#[derive(Debug, Clone, Copy, PartialEq, Eq, Structural)]
pub enum Question {
    /// Whether the place is a link.
    IsLink,
    /// The components of the target of the link at the place, if it is one.
    ReadLink,
    /// Nothing more: this is what it found.
    Done(bool),
}

/// The place that the walk asks about.
pub open spec fn asked_about(w: WalkModel) -> PlaceModel {
    if w.phase == Phase::Linking {
        w.resolved
    } else {
        w.at
    }
}

fn clone_name(name: &Vec<u8>) -> (r: Vec<u8>)
    ensures
        r@ == name@,
{
    let mut out: Vec<u8> = Vec::new();
    let mut i: usize = 0;
    while i < name.len()
        invariant
            i <= name@.len(),
            out@ == name@.take(i as int),
        decreases name@.len() - i,
    {
        out.push(name[i]);
        assert(name@.take(i + 1) =~= name@.take(i as int).push(name@[i as int]));
        i = i + 1;
    }
    assert(name@.take(i as int) =~= name@);
    out
}

fn clone_names(names: &Vec<Vec<u8>>) -> (r: Vec<Vec<u8>>)
    ensures
        name_models(r@) == name_models(names@),
{
    let mut out: Vec<Vec<u8>> = Vec::new();
    let mut i: usize = 0;
    let ghost all = name_models(names@);
    assert(name_models(out@) =~= all.take(0));
    while i < names.len()
        invariant
            all == name_models(names@),
            i <= names@.len(),
            name_models(out@) == all.take(i as int),
        decreases names@.len() - i,
    {
        let ghost before = name_models(out@);
        let name = clone_name(&names[i]);
        out.push(name);
        proof {
            assert(name_models(out@) =~= before.push(all[i as int]));
            assert(all.take(i + 1) =~= all.take(i as int).push(all[i as int]));
        }
        i = i + 1;
    }
    assert(all.take(i as int) =~= all);
    out
}

fn same_name(a: &Vec<u8>, b: &Vec<u8>) -> (r: bool)
    ensures
        r == (a@ == b@),
{
    if a.len() != b.len() {
        return false;
    }
    let mut i: usize = 0;
    while i < a.len()
        invariant
            a@.len() == b@.len(),
            i <= a@.len(),
            forall|j: int| 0 <= j < i ==> a@[j] == b@[j],
        decreases a@.len() - i,
    {
        if a[i] != b[i] {
            return false;
        }
        i = i + 1;
    }
    assert(a@ =~= b@);
    true
}

/// Whether a place lies in the directory with these names from the root.
fn in_directory(p: &Place, dir: &Vec<Vec<u8>>) -> (r: bool)
    ensures
        r == lies_in(p@, name_models(dir@)),
{
    if !p.rooted || dir.len() > p.names.len() {
        return false;
    }
    let ghost names = name_models(p.names@);
    let ghost want = name_models(dir@);
    let mut i: usize = 0;
    while i < dir.len()
        invariant
            names == name_models(p.names@),
            want == name_models(dir@),
            dir@.len() <= p.names@.len(),
            i <= dir@.len(),
            forall|j: int| 0 <= j < i ==> names[j] == want[j],
        decreases dir@.len() - i,
    {
        assert(names[i as int] == p.names@[i as int]@);
        assert(want[i as int] == dir@[i as int]@);
        if !same_name(&p.names[i], &dir[i]) {
            assert(names.take(want.len() as int)[i as int] != want[i as int]);
            return false;
        }
        i = i + 1;
    }
    assert(names.take(want.len() as int) =~= want);
    true
}

/// Goes to the directory above.
fn go_up(p: &mut Place)
    ensures
        final(p)@ == above(old(p)@),
{
    if p.names.len() > 0 {
        let ghost before = p.names@;
        p.names.pop();
        assert(name_models(p.names@) =~= name_models(before).drop_last());
    }
}

/// Goes to the place with this name in the directory.
fn go_down(p: &mut Place, name: Vec<u8>)
    ensures
        final(p)@ == entered(old(p)@, name@),
{
    let ghost before = name_models(p.names@);
    let ghost text = name@;
    p.names.push(name);
    assert(name_models(p.names@) =~= before.push(text));
}

/// The root directory.
fn at_root() -> (r: Place)
    ensures
        r@ == root(),
{
    let r = Place { rooted: true, names: Vec::new() };
    assert(name_models(r.names@) =~= Seq::empty());
    r
}

/// The components of a place.
fn components_of(p: &Place) -> (r: Vec<Tok>)
    ensures
        tok_models(r@) == components(p@),
{
    let mut out: Vec<Tok> = Vec::new();
    let ghost all = components(p@);
    let ghost skip: int = if p.rooted {
        1
    } else {
        0
    };
    if p.rooted {
        out.push(Tok::Root);
    }
    assert(tok_models(out@) =~= all.take(skip));
    let mut i: usize = 0;
    while i < p.names.len()
        invariant
            all == components(p@),
            skip == if p.rooted {
                1int
            } else {
                0
            },
            i <= p.names@.len(),
            tok_models(out@) == all.take(skip + i),
        decreases p.names@.len() - i,
    {
        let ghost before = tok_models(out@);
        let tok = Tok::Normal(clone_name(&p.names[i]));
        let ghost model = tok@;
        out.push(tok);
        proof {
            assert(p@.names[i as int] == p.names@[i as int]@);
            assert(tok_models(out@) =~= before.push(model));
            assert(model == all[skip + i]);
            assert(all.take(skip + i + 1) =~= all.take(skip + i).push(all[skip + i]));
        }
        i = i + 1;
    }
    assert(all.take(skip + i) =~= all);
    out
}

impl Walk {
    /// A walk along `path` from the working directory, whose names from the
    /// root are `cwd`, and without links `canonical`.
    pub fn new(path: Vec<Tok>, cwd: Vec<Vec<u8>>, canonical: Vec<Vec<u8>>) -> (r: Walk)
        ensures
            on_its_way(r@),
            forall|
                marks: spec_fn(PlaceModel) -> bool,
                links: spec_fn(PlaceModel) -> Option<Seq<TokModel>>,
            | #[trigger]
                outcome(r@, marks, links) == escapes(
                    tok_models(path@),
                    Home { cwd: name_models(cwd@), canonical: name_models(canonical@) },
                    marks,
                    links,
                ),
    {
        let at = Place { rooted: false, names: Vec::new() };
        assert(name_models(at.names@) =~= Seq::empty());
        Walk {
            path,
            cwd,
            canonical,
            phase: Phase::Walking,
            next: 0,
            at,
            resolved: Place { rooted: false, names: Vec::new() },
            pending: Vec::new(),
            guard: 0,
        }
    }

    /// The place that the walk asks about.
    pub fn place(&self) -> (r: &Place)
        ensures
            r@ == asked_about(self@),
    {
        match self.phase {
            Phase::Linking => &self.resolved,
            _ => &self.at,
        }
    }

    /// Takes one step along the path; whether a question has come up or the
    /// walk is over, and then what it found.
    fn step_along(self) -> (r: (Walk, Option<Question>))
        requires
            self@.phase == Phase::Walking,
            on_its_way(self@),
        ensures
            forall|
                marks: spec_fn(PlaceModel) -> bool,
                links: spec_fn(PlaceModel) -> Option<Seq<TokModel>>,
            |
                #![trigger outcome(r.0@, marks, links)]
                #![trigger outcome(self@, marks, links)]
                outcome(r.0@, marks, links) == outcome(self@, marks, links),
            r.0@.path == self@.path,
            on_its_way(r.0@),
            match r.1 {
                None => r.0@.phase == Phase::Walking && r.0@.next == self@.next + 1,
                Some(Question::IsLink) => r.0@.phase == Phase::Marking,
                Some(Question::ReadLink) => false,
                Some(Question::Done(found)) => forall|
                    marks: spec_fn(PlaceModel) -> bool,
                    links: spec_fn(PlaceModel) -> Option<Seq<TokModel>>,
                | #[trigger] outcome(self@, marks, links) == found,
            },
    {
        let ghost w0 = self@;
        let mut w = self;
        let n = w.path.len();
        if w.next >= n || n - w.next <= 1 {
            return (w, Some(Question::Done(false)));
        }
        assert(w0.path[w0.next] == w.path@[w.next as int]@);
        match &w.path[w.next] {
            Tok::CurDir => {},
            Tok::ParentDir => {
                go_up(&mut w.at);
            },
            Tok::Root => {
                w.at = at_root();
            },
            Tok::Normal(name) => {
                let name = clone_name(name);
                go_down(&mut w.at, name);
                w.phase = Phase::Marking;
                w.next = w.next + 1;
                return (w, Some(Question::IsLink));
            },
        }
        w.next = w.next + 1;
        (w, None)
    }

    /// Follows one component of a link; whether a question has come up or the
    /// walk is over, and then what it found.
    fn step_inside(self) -> (r: (Walk, Option<Question>))
        requires
            self@.phase == Phase::Following,
            on_its_way(self@),
        ensures
            forall|
                marks: spec_fn(PlaceModel) -> bool,
                links: spec_fn(PlaceModel) -> Option<Seq<TokModel>>,
            |
                #![trigger outcome(r.0@, marks, links)]
                #![trigger outcome(self@, marks, links)]
                outcome(r.0@, marks, links) == outcome(self@, marks, links),
            r.0@.path == self@.path,
            r.0@.next == self@.next,
            on_its_way(r.0@),
            match r.1 {
                None => r.0@.phase == Phase::Walking || (r.0@.phase == Phase::Following
                    && r.0@.pending.len() < self@.pending.len()),
                Some(Question::IsLink) => false,
                Some(Question::ReadLink) => r.0@.phase == Phase::Linking,
                Some(Question::Done(found)) => forall|
                    marks: spec_fn(PlaceModel) -> bool,
                    links: spec_fn(PlaceModel) -> Option<Seq<TokModel>>,
                | #[trigger] outcome(self@, marks, links) == found,
            },
    {
        let ghost w0 = self@;
        let mut w = self;
        if w.pending.len() == 0 {
            if !in_directory(&w.resolved, &w.canonical) {
                return (w, Some(Question::Done(true)));
            }
            w.phase = Phase::Walking;
            return (w, None);
        }
        let ghost before = w.pending@;
        let tok = w.pending.remove(0);
        proof {
            assert(tok@ == w0.pending[0]);
            assert(tok_models(w.pending@) =~= w0.pending.skip(1));
        }
        match tok {
            Tok::CurDir => {},
            Tok::ParentDir => {
                go_up(&mut w.resolved);
            },
            Tok::Root => {
                w.resolved = at_root();
            },
            Tok::Normal(name) => {
                let ghost here = entered(w0.resolved, name@);
                go_down(&mut w.resolved, name);
                if w.guard == 0 {
                    if !in_directory(&w.resolved, &w.canonical) {
                        w.pending = Vec::new();
                        assert(tok_models(w.pending@) =~= Seq::empty());
                        return (w, Some(Question::Done(true)));
                    }
                    w.phase = Phase::Walking;
                    return (w, None);
                }
                w.phase = Phase::Linking;
                assert(here.names.drop_last() =~= w0.resolved.names);
                return (w, Some(Question::ReadLink));
            },
        }
        (w, None)
    }

    /// Walks on until there is a question.
    pub fn next_question(self) -> (r: (Walk, Question))
        requires
            on_its_way(self@),
        ensures
            forall|
                marks: spec_fn(PlaceModel) -> bool,
                links: spec_fn(PlaceModel) -> Option<Seq<TokModel>>,
            |
                #![trigger outcome(r.0@, marks, links)]
                #![trigger outcome(self@, marks, links)]
                outcome(r.0@, marks, links) == outcome(self@, marks, links),
            on_its_way(r.0@),
            match r.1 {
                Question::IsLink => r.0@.phase == Phase::Marking,
                Question::ReadLink => r.0@.phase == Phase::Linking,
                Question::Done(found) => forall|
                    marks: spec_fn(PlaceModel) -> bool,
                    links: spec_fn(PlaceModel) -> Option<Seq<TokModel>>,
                | #[trigger] outcome(self@, marks, links) == found,
            },
    {
        let mut w = self;
        loop
            invariant
                forall|
                    marks: spec_fn(PlaceModel) -> bool,
                    links: spec_fn(PlaceModel) -> Option<Seq<TokModel>>,
                |
                    #![trigger outcome(w@, marks, links)]
                    #![trigger outcome(self@, marks, links)]
                    outcome(w@, marks, links) == outcome(self@, marks, links),
                on_its_way(w@),
            decreases
                    w@.path.len() - w@.next,
                    if w@.phase == Phase::Following {
                        1int
                    } else {
                        0int
                    },
                    w@.pending.len(),
        {
            let (next, question) = match w.phase {
                Phase::Walking => w.step_along(),
                Phase::Marking => {
                    return (w, Question::IsLink);
                },
                Phase::Following => w.step_inside(),
                Phase::Linking => {
                    return (w, Question::ReadLink);
                },
            };
            w = next;
            match question {
                Some(question) => {
                    return (w, question);
                },
                None => {},
            }
        }
    }

    /// Goes on knowing whether the place is a link.
    pub fn tell_mark(self, is_link: bool) -> (r: Walk)
        requires
            on_its_way(self@),
            self@.phase == Phase::Marking,
        ensures
            r@ == after_mark(self@, is_link),
            forall|
                marks: spec_fn(PlaceModel) -> bool,
                links: spec_fn(PlaceModel) -> Option<Seq<TokModel>>,
            |
                marks(self@.at) == is_link ==> #[trigger] outcome(r@, marks, links) == outcome(
                    self@,
                    marks,
                    links,
                ),
            on_its_way(r@),
    {
        let mut w = self;
        if is_link {
            w.phase = Phase::Following;
            w.resolved = Place { rooted: true, names: clone_names(&w.cwd) };
            w.pending = components_of(&w.at);
            w.guard = MAX_LINKS;
        } else {
            w.phase = Phase::Walking;
        }
        w
    }

    /// Goes on knowing the components of the target of the link, if the place
    /// is one.
    pub fn tell_link(self, target: Option<Vec<Tok>>) -> (r: Walk)
        requires
            on_its_way(self@),
            self@.phase == Phase::Linking,
        ensures
            r@ == after_link(self@, opt_tok_models(target)),
            forall|
                marks: spec_fn(PlaceModel) -> bool,
                links: spec_fn(PlaceModel) -> Option<Seq<TokModel>>,
            |
                links(self@.resolved) == opt_tok_models(target) ==> #[trigger] outcome(r@, marks, links) == outcome(self@, marks, links),
            on_its_way(r@),
    {
        let ghost w0 = self@;
        let mut w = self;
        w.phase = Phase::Following;
        match target {
            Some(toks) => {
                let ghost head = tok_models(toks@);
                let mut toks = toks;
                go_up(&mut w.resolved);
                w.guard = w.guard - 1;
                toks.append(&mut w.pending);
                w.pending = toks;
                assert(tok_models(w.pending@) =~= head + w0.pending);
            },
            None => {},
        }
        w
    }
}

} // verus!
