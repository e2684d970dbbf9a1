use vstd::prelude::*;
use vstd::seq_lib::{to_multiset_build, to_multiset_insert};
use crate::clock::now_nanos;
use crate::error::RegistryError;

verus! {

/// What a release is, as a mathematical value.
pub struct ReleaseView {
    pub version: Seq<char>,
    pub filename: Seq<char>,
    pub upload_time: i64,
}

/// What a package is, as a mathematical value.
pub struct PackageView {
    pub name: Seq<char>,
    pub releases: Seq<ReleaseView>,
}

/// One uploaded version of a package. `upload_time` counts nanoseconds
/// since the Unix epoch, in UTC.
#[derive(Debug, Clone)]
pub struct Release {
    pub version: String,
    pub filename: String,
    pub upload_time: i64,
}

/// A package name and its releases, newest first.
#[derive(Debug, Clone)]
pub struct Package {
    pub name: String,
    pub releases: Vec<Release>,
}

impl View for Release {
    type V = ReleaseView;

    open spec fn view(&self) -> ReleaseView {
        ReleaseView {
            version: self.version@,
            filename: self.filename@,
            upload_time: self.upload_time,
        }
    }
}

impl View for Package {
    type V = PackageView;

    open spec fn view(&self) -> PackageView {
        PackageView { name: self.name@, releases: self.releases@.map_values(|r: Release| r@) }
    }
}

/// The packages of `v`, as mathematical values.
pub open spec fn packages_view(v: Seq<Package>) -> Seq<PackageView> {
    v.map_values(|p: Package| p@)
}

/// Releases stand newest first: no release is older than one after it.
pub open spec fn releases_ordered(rs: Seq<ReleaseView>) -> bool {
    forall|i: int, j: int| 0 <= i < j < rs.len() ==> rs[i].upload_time >= rs[j].upload_time
}

/// No two packages share a name.
pub open spec fn names_unique(ps: Seq<PackageView>) -> bool {
    forall|i: int, j: int| 0 <= i < ps.len() && 0 <= j < ps.len() && i != j ==> ps[i].name != ps[j].name
}

/// A catalogue as the registry keeps it: names are keys, and each
/// package's releases stand newest first.
pub open spec fn catalog_wf(ps: Seq<PackageView>) -> bool {
    &&& names_unique(ps)
    &&& forall|i: int| 0 <= i < ps.len() ==> releases_ordered(#[trigger] ps[i].releases)
}

/// A package of this name is in the catalogue.
pub open spec fn has_package(ps: Seq<PackageView>, name: Seq<char>) -> bool {
    exists|i: int| 0 <= i < ps.len() && ps[i].name == name
}

/// The position of the package of this name (meaningful where it is present).
pub open spec fn package_index(ps: Seq<PackageView>, name: Seq<char>) -> int {
    choose|i: int| 0 <= i < ps.len() && ps[i].name == name
}

/// Where a release uploaded at `t` goes: before the first release strictly
/// older than it, so after every release of the same time or newer.
pub open spec fn insertion_point(rs: Seq<ReleaseView>, t: i64) -> int
    decreases rs.len(),
{
    if rs.len() == 0 {
        0
    } else if rs[0].upload_time < t {
        0
    } else {
        1 + insertion_point(rs.drop_first(), t)
    }
}

/// The releases `rs` with `r` added in its place.
pub open spec fn with_release(rs: Seq<ReleaseView>, r: ReleaseView) -> Seq<ReleaseView> {
    rs.insert(insertion_point(rs, r.upload_time), r)
}

/// The catalogue `ps` after release `r` is added under `name`: an existing
/// package gets the release in its place; a new name becomes a package of
/// its own, after all others, holding that one release.
pub open spec fn spec_add_release(ps: Seq<PackageView>, name: Seq<char>, r: ReleaseView) -> Seq<PackageView> {
    if has_package(ps, name) {
        let i = package_index(ps, name);
        ps.update(i, PackageView { name: ps[i].name, releases: with_release(ps[i].releases, r) })
    } else {
        ps.push(PackageView { name, releases: seq![r] })
    }
}

/// The catalogue after each `(name, release)` of `adds` is added, in order.
pub open spec fn add_all(ps: Seq<PackageView>, adds: Seq<(Seq<char>, ReleaseView)>) -> Seq<PackageView>
    decreases adds.len(),
{
    if adds.len() == 0 {
        ps
    } else {
        let last = adds.last();
        spec_add_release(add_all(ps, adds.drop_last()), last.0, last.1)
    }
}

proof fn lemma_insertion_point_is(rs: Seq<ReleaseView>, t: i64, k: int)
    requires
        0 <= k <= rs.len(),
        forall|i: int| 0 <= i < k ==> rs[i].upload_time >= t,
        k == rs.len() || rs[k].upload_time < t,
    ensures
        insertion_point(rs, t) == k,
    decreases k,
{
    if k > 0 {
        lemma_insertion_point_is(rs.drop_first(), t, k - 1);
    }
}

proof fn lemma_insertion_point_bounds(rs: Seq<ReleaseView>, t: i64)
    ensures
        0 <= insertion_point(rs, t) <= rs.len(),
        forall|i: int| 0 <= i < insertion_point(rs, t) ==> rs[i].upload_time >= t,
        insertion_point(rs, t) < rs.len() ==> rs[insertion_point(rs, t)].upload_time < t,
    decreases rs.len(),
{
    if rs.len() > 0 && rs[0].upload_time >= t {
        let tail = rs.drop_first();
        lemma_insertion_point_bounds(tail, t);
        assert forall|i: int| 0 <= i < insertion_point(rs, t) implies rs[i].upload_time >= t by {
            if i > 0 {
                assert(rs[i] == tail[i - 1]);
            }
        }
    }
}

/// Adding a release keeps a package's releases newest first, and keeps the
/// order of those already there: the new release goes after every release
/// uploaded at the same time or later, and before every older one.
pub proof fn lemma_add_keeps_order(rs: Seq<ReleaseView>, r: ReleaseView)
    requires
        releases_ordered(rs),
    ensures
        releases_ordered(with_release(rs, r)),
        with_release(rs, r).len() == rs.len() + 1,
        with_release(rs, r) == rs.subrange(0, insertion_point(rs, r.upload_time)).push(r)
            + rs.subrange(insertion_point(rs, r.upload_time), rs.len() as int),
        forall|i: int| 0 <= i < insertion_point(rs, r.upload_time) ==> rs[i].upload_time >= r.upload_time,
        forall|i: int| insertion_point(rs, r.upload_time) <= i < rs.len() ==> rs[i].upload_time < r.upload_time,
{
    let k = insertion_point(rs, r.upload_time);
    lemma_insertion_point_bounds(rs, r.upload_time);
    let out = with_release(rs, r);
    assert(out =~= rs.subrange(0, k).push(r) + rs.subrange(k, rs.len() as int));
    assert forall|i: int| k <= i < rs.len() implies rs[i].upload_time < r.upload_time by {
        assert(rs[k].upload_time >= rs[i].upload_time);
    }
}

/// Adding a release keeps the catalogue well formed.
pub proof fn lemma_add_keeps_catalog(ps: Seq<PackageView>, name: Seq<char>, r: ReleaseView)
    requires
        catalog_wf(ps),
    ensures
        catalog_wf(spec_add_release(ps, name, r)),
        has_package(spec_add_release(ps, name, r), name),
        forall|n: Seq<char>| has_package(ps, n) ==> has_package(spec_add_release(ps, name, r), n),
{
    let out = spec_add_release(ps, name, r);
    if has_package(ps, name) {
        let i = package_index(ps, name);
        lemma_add_keeps_order(ps[i].releases, r);
        assert(out[i].name == name);
        assert forall|n: Seq<char>| has_package(ps, n) implies has_package(out, n) by {
            let j = choose|j: int| 0 <= j < ps.len() && ps[j].name == n;
            assert(out[j].name == n);
        }
    } else {
        assert(out[ps.len() as int].name == name);
        assert forall|n: Seq<char>| has_package(ps, n) implies has_package(out, n) by {
            let j = choose|j: int| 0 <= j < ps.len() && ps[j].name == n;
            assert(out[j].name == n);
        }
    }
}

/// After any sequence of additions, to one package or to many, every
/// package's releases still stand newest first and names are still keys.
pub proof fn lemma_adds_keep_catalog(ps: Seq<PackageView>, adds: Seq<(Seq<char>, ReleaseView)>)
    requires
        catalog_wf(ps),
    ensures
        catalog_wf(add_all(ps, adds)),
    decreases adds.len(),
{
    if adds.len() > 0 {
        lemma_adds_keep_catalog(ps, adds.drop_last());
        lemma_add_keeps_catalog(add_all(ps, adds.drop_last()), adds.last().0, adds.last().1);
    }
}

/// Releases added one after another under distinct names that are not yet
/// registered are all kept: each package already there stays as it was,
/// and each name becomes a package of its own holding its one release, in
/// the order of the additions. Writers hold the registry exclusively, so
/// uploads to distinct names running side by side come to such a sequence.
pub proof fn lemma_distinct_adds_all_kept(ps: Seq<PackageView>, adds: Seq<(Seq<char>, ReleaseView)>)
    requires
        catalog_wf(ps),
        forall|a: int, b: int| 0 <= a < b < adds.len() ==> adds[a].0 != adds[b].0,
        forall|a: int| 0 <= a < adds.len() ==> !has_package(ps, #[trigger] adds[a].0),
    ensures
        catalog_wf(add_all(ps, adds)),
        add_all(ps, adds).len() == ps.len() + adds.len(),
        forall|i: int| 0 <= i < ps.len() ==> add_all(ps, adds)[i] == ps[i],
        forall|a: int| 0 <= a < adds.len() ==> add_all(ps, adds)[ps.len() + a] == (PackageView {
            name: adds[a].0,
            releases: seq![adds[a].1],
        }),
        forall|a: int| 0 <= a < adds.len() ==> has_package(add_all(ps, adds), #[trigger] adds[a].0),
    decreases adds.len(),
{
    if adds.len() > 0 {
        let init = adds.drop_last();
        let last = adds.last();
        lemma_distinct_adds_all_kept(ps, init);
        let mid = add_all(ps, init);
        assert(last == adds[adds.len() - 1]);
        if has_package(mid, last.0) {
            let j = choose|j: int| 0 <= j < mid.len() && mid[j].name == last.0;
            if j < ps.len() {
                assert(ps[j].name == last.0);
            } else {
                let a = j - ps.len();
                assert(init[a] == adds[a]);
                assert(mid[ps.len() + a].name == adds[a].0);
            }
        }
        lemma_add_keeps_catalog(mid, last.0, last.1);
        let out = add_all(ps, adds);
        assert(out == mid.push(PackageView { name: last.0, releases: seq![last.1] }));
        assert forall|a: int| 0 <= a < adds.len() implies out[ps.len() + a] == (PackageView {
            name: adds[a].0,
            releases: seq![adds[a].1],
        }) by {
            if a < init.len() {
                assert(init[a] == adds[a]);
            }
        }
        assert forall|a: int| 0 <= a < adds.len() implies has_package(out, #[trigger] adds[a].0) by {
            assert(out[ps.len() + a].name == adds[a].0);
        }
    }
}

/// The releases `rs` put newest first by adding them one by one, in the
/// order given: a stable sort, so releases of the same time keep their order.
pub open spec fn sort_releases(rs: Seq<ReleaseView>) -> Seq<ReleaseView>
    decreases rs.len(),
{
    if rs.len() == 0 {
        rs
    } else {
        with_release(sort_releases(rs.drop_last()), rs.last())
    }
}

/// A stored package with its releases put newest first.
pub open spec fn loaded_package(p: PackageView) -> PackageView {
    PackageView { name: p.name, releases: sort_releases(p.releases) }
}

/// What loading a stored snapshot yields: when no two packages share a
/// name, the packages as stored, each with its releases put newest first;
/// nothing otherwise.
pub open spec fn loaded_catalog(saved: Seq<PackageView>) -> Option<Seq<PackageView>> {
    if names_unique(saved) {
        Some(saved.map_values(|p: PackageView| loaded_package(p)))
    } else {
        None
    }
}

/// Sorting gives releases newest first, and loses or adds none.
pub proof fn lemma_sort_releases_ordered(rs: Seq<ReleaseView>)
    ensures
        releases_ordered(sort_releases(rs)),
        sort_releases(rs).len() == rs.len(),
    decreases rs.len(),
{
    if rs.len() > 0 {
        lemma_sort_releases_ordered(rs.drop_last());
        lemma_add_keeps_order(sort_releases(rs.drop_last()), rs.last());
    }
}

/// Sorting keeps every release: the sorted releases are the same releases,
/// each as many times, as those given.
pub proof fn lemma_sort_releases_keeps_all(rs: Seq<ReleaseView>)
    ensures
        sort_releases(rs).to_multiset() == rs.to_multiset(),
    decreases rs.len(),
{
    if rs.len() > 0 {
        let init = rs.drop_last();
        let last = rs.last();
        lemma_sort_releases_keeps_all(init);
        lemma_sort_releases_ordered(init);
        let sorted = sort_releases(init);
        lemma_insertion_point_bounds(sorted, last.upload_time);
        to_multiset_insert(sorted, insertion_point(sorted, last.upload_time), last);
        to_multiset_build(init, last);
        assert(init.push(last) =~= rs);
    }
}

/// Releases already newest first are left exactly as they are by sorting.
pub proof fn lemma_sort_releases_keeps_ordered(rs: Seq<ReleaseView>)
    requires
        releases_ordered(rs),
    ensures
        sort_releases(rs) == rs,
    decreases rs.len(),
{
    if rs.len() > 0 {
        let init = rs.drop_last();
        let last = rs.last();
        assert(releases_ordered(init));
        lemma_sort_releases_keeps_ordered(init);
        assert forall|i: int| 0 <= i < init.len() implies init[i].upload_time >= last.upload_time by {
            assert(init[i] == rs[i]);
        }
        lemma_insertion_point_is(init, last.upload_time, init.len() as int);
        assert(init.insert(init.len() as int, last) =~= rs);
    }
}

/// Snapshots round-trip: a registry's catalogue, which is always well
/// formed (as `Registry::packages` states), loads back as exactly that
/// catalogue, with the same names, release lists and upload times; and
/// what any snapshot loads as is well formed and loads as itself again,
/// so saving it after loading changes nothing.
pub proof fn lemma_snapshot_round_trip(catalog: Seq<PackageView>, saved: Seq<PackageView>)
    requires
        catalog_wf(catalog),
    ensures
        loaded_catalog(catalog) == Some(catalog),
        loaded_catalog(saved) matches Some(c) ==> catalog_wf(c) && loaded_catalog(c) == Some(c),
{
    assert forall|i: int| 0 <= i < catalog.len() implies loaded_package(catalog[i]) == catalog[i] by {
        lemma_sort_releases_keeps_ordered(catalog[i].releases);
    }
    assert(catalog.map_values(|p: PackageView| loaded_package(p)) =~= catalog);
    if names_unique(saved) {
        let c = saved.map_values(|p: PackageView| loaded_package(p));
        assert forall|i: int| 0 <= i < c.len() implies releases_ordered(#[trigger] c[i].releases) by {
            lemma_sort_releases_ordered(saved[i].releases);
        }
        assert(names_unique(c));
        assert forall|i: int| 0 <= i < c.len() implies loaded_package(c[i]) == c[i] by {
            lemma_sort_releases_keeps_ordered(c[i].releases);
        }
        assert(c.map_values(|p: PackageView| loaded_package(p)) =~= c);
    }
}

/// The in-memory catalogue of packages, keyed by name. Packages stand in
/// the order in which they were loaded, then in the order in which new
/// names were registered.
#[derive(Debug)]
pub struct Registry {
    packages: Vec<Package>,
}

impl View for Registry {
    type V = Seq<PackageView>;

    closed spec fn view(&self) -> Seq<PackageView> {
        packages_view(self.packages@)
    }
}

impl Registry {
    /// Every registry holds a well-formed catalogue.
    #[verifier::type_invariant]
    spec fn inv(&self) -> bool {
        catalog_wf(packages_view(self.packages@))
    }

    /// An empty registry.
    pub fn new() -> (r: Registry)
        ensures
            r@ == Seq::<PackageView>::empty(),
    {
        let r = Registry { packages: Vec::new() };
        assert(r@ =~= Seq::<PackageView>::empty());
        r
    }

    /// The registry at startup: empty when no snapshot was stored, else the
    /// stored snapshot, which must pass `from_packages`.
    pub fn load(stored: Option<Vec<Package>>) -> (r: Result<Registry, RegistryError>)
        ensures
            stored is None ==> (r matches Ok(reg) && reg@ == Seq::<PackageView>::empty()),
            stored matches Some(ps) ==> (r is Ok <==> names_unique(packages_view(ps@))),
            stored matches Some(ps) ==> (r matches Ok(reg) ==> loaded_catalog(packages_view(ps@)) == Some(reg@)),
            r matches Err(e) ==> e is Serialization,
    {
        match stored {
            None => Ok(Registry::new()),
            Some(ps) => Registry::from_packages(ps),
        }
    }

    /// Rebuilds a registry from a snapshot of its packages. The snapshot is
    /// accepted exactly when no two packages share a name. The packages are
    /// then kept as stored, in the order given, with each package's releases
    /// put newest first by a stable sort, as adding a release would.
    pub fn from_packages(packages: Vec<Package>) -> (r: Result<Registry, RegistryError>)
        ensures
            r is Ok <==> names_unique(packages_view(packages@)),
            r matches Ok(reg) ==> loaded_catalog(packages_view(packages@)) == Some(reg@),
            r matches Err(e) ==> e is Serialization,
    {
        let ghost pv = packages_view(packages@);
        let n = packages.len();
        let mut i: usize = 0;
        while i < n
            invariant
                n == packages@.len(),
                pv == packages_view(packages@),
                0 <= i <= n,
                forall|a: int, b: int| 0 <= a < i && 0 <= b < i && a != b ==> pv[a].name != pv[b].name,
            decreases n - i,
        {
            let mut j: usize = 0;
            while j < i
                invariant
                    n == packages@.len(),
                    pv == packages_view(packages@),
                    0 <= j <= i < n,
                    forall|b: int| 0 <= b < j ==> pv[b].name != pv[i as int].name,
                decreases i - j,
            {
                assert(pv[j as int] == packages@[j as int]@);
                assert(pv[i as int] == packages@[i as int]@);
                if packages[j].name == packages[i].name {
                    assert(!names_unique(pv));
                    return Err(RegistryError::Serialization(String::from_str("duplicate package name in snapshot")));
                }
                j = j + 1;
            }
            i = i + 1;
        }
        let mut out: Vec<Package> = Vec::new();
        let mut i: usize = 0;
        while i < n
            invariant
                n == packages@.len(),
                pv == packages_view(packages@),
                names_unique(pv),
                0 <= i <= n,
                out@.len() == i,
                forall|j: int| 0 <= j < i ==> out@[j]@ == loaded_package(pv[j]),
            decreases n - i,
        {
            assert(pv[i as int] == packages@[i as int]@);
            let releases = sorted_releases(&packages[i].releases);
            out.push(Package { name: packages[i].name.clone(), releases });
            i = i + 1;
        }
        proof {
            let c = pv.map_values(|p: PackageView| loaded_package(p));
            assert(packages_view(out@) =~= c);
            assert forall|k: int| 0 <= k < c.len() implies releases_ordered(#[trigger] c[k].releases) by {
                lemma_sort_releases_ordered(pv[k].releases);
            }
        }
        Ok(Registry { packages: out })
    }

    /// An independent copy of this registry, holding the same catalogue.
    /// A change can be made to the copy, persisted, and only then take the
    /// place of the original.
    pub fn duplicate(&self) -> (r: Registry)
        ensures
            r@ == self@,
    {
        proof {
            use_type_invariant(self);
        }
        let packages = copy_packages(&self.packages);
        Registry { packages }
    }

    /// The snapshot of the catalogue: every package with its releases.
    pub fn packages(&self) -> (r: &Vec<Package>)
        ensures
            packages_view(r@) == self@,
            catalog_wf(self@),
    {
        proof {
            use_type_invariant(self);
        }
        &self.packages
    }

    /// The names of all packages, in the order in which the packages stand.
    pub fn list_packages(&self) -> (r: Vec<String>)
        ensures
            r@.len() == self@.len(),
            forall|i: int| 0 <= i < r@.len() ==> r@[i]@ == self@[i].name,
    {
        let n = self.packages.len();
        let mut out: Vec<String> = Vec::new();
        let mut i: usize = 0;
        while i < n
            invariant
                n == self@.len(),
                0 <= i <= n,
                out@.len() == i,
                forall|j: int| 0 <= j < i ==> out@[j]@ == self@[j].name,
            decreases n - i,
        {
            out.push(self.packages[i].name.clone());
            i = i + 1;
        }
        out
    }

    /// The package of this name, or `NotFound` carrying the name.
    pub fn get_package(&self, name: &str) -> (r: Result<&Package, RegistryError>)
        ensures
            r is Ok <==> has_package(self@, name@),
            r matches Ok(p) ==> p@ == self@[package_index(self@, name@)],
            r matches Err(e) ==> (e matches RegistryError::NotFound(n) && n@ == name@),
    {
        proof {
            use_type_invariant(self);
        }
        let key = String::from_str(name);
        match position_of(&self.packages, &key) {
            Some(i) => {
                proof {
                    let j = package_index(self@, name@);
                    assert(self@[j].name == name@);
                }
                Ok(&self.packages[i])
            },
            None => Err(RegistryError::NotFound(key)),
        }
    }

    /// Records a release of `version`, stored as `filename`, under the
    /// package `name`, as uploaded at `upload_time`: the package is created
    /// if it is new, and the release goes in its place among the package's
    /// releases, newest first, after any of the same time.
    pub fn add_release_at(&mut self, name: String, version: String, filename: String, upload_time: i64)
        ensures
            catalog_wf(final(self)@),
            final(self)@ == spec_add_release(
                old(self)@,
                name@,
                ReleaseView { version: version@, filename: filename@, upload_time },
            ),
    {
        proof {
            use_type_invariant(&*self);
        }
        let mut packages: Vec<Package> = Vec::new();
        std::mem::swap(&mut packages, &mut self.packages);
        add_to_packages(&mut packages, name, version, filename, upload_time);
        self.packages = packages;
        proof {
            use_type_invariant(&*self);
        }
    }

    /// Prepares the addition of a release stamped with the current time,
    /// without touching this registry: returns a copy with the release added,
    /// and the time used, to be persisted and then put in place by `commit`.
    /// Fails with `Io` when the clock reads a time that nanoseconds in an
    /// `i64` cannot hold.
    pub fn stage_release(&self, name: String, version: String, filename: String) -> (r: Result<(Registry, i64), RegistryError>)
        ensures
            r matches Ok((next, t)) ==> next@ == spec_add_release(
                self@,
                name@,
                ReleaseView { version: version@, filename: filename@, upload_time: t },
            ),
            r matches Err(e) ==> e is Io,
    {
        let mut next = self.duplicate();
        match next.add_release(name, version, filename) {
            Some(t) => Ok((next, t)),
            None => Err(RegistryError::Io(String::from_str("system clock reading out of range"))),
        }
    }

    /// Puts a staged registry in place once its snapshot was saved: on a
    /// successful save this registry becomes `staged`; on a failed one it
    /// stays as it was and the failure is returned.
    pub fn commit(&mut self, staged: Registry, saved: Result<(), RegistryError>) -> (r: Result<(), RegistryError>)
        ensures
            r == saved,
            saved is Ok ==> final(self)@ == staged@,
            saved is Err ==> final(self)@ == old(self)@,
    {
        if saved.is_ok() {
            *self = staged;
        }
        saved
    }

    /// Records a release under the package `name`, stamped with the current
    /// time, which is returned; otherwise as `add_release_at`. When the
    /// clock reads a time that nanoseconds in an `i64` cannot hold, nothing
    /// is recorded and `None` is returned.
    pub fn add_release(&mut self, name: String, version: String, filename: String) -> (r: Option<i64>)
        ensures
            catalog_wf(final(self)@),
            r matches Some(t) ==> final(self)@ == spec_add_release(
                old(self)@,
                name@,
                ReleaseView { version: version@, filename: filename@, upload_time: t },
            ),
            r is None ==> final(self)@ == old(self)@,
    {
        proof {
            use_type_invariant(&*self);
        }
        match now_nanos() {
            Some(t) => {
                self.add_release_at(name, version, filename, t);
                Some(t)
            },
            None => None,
        }
    }
}

/// A copy of a release.
fn copy_release(r: &Release) -> (c: Release)
    ensures
        c@ == r@,
{
    Release { version: r.version.clone(), filename: r.filename.clone(), upload_time: r.upload_time }
}

/// A copy of a list of packages, release by release.
fn copy_packages(packages: &Vec<Package>) -> (c: Vec<Package>)
    ensures
        packages_view(c@) == packages_view(packages@),
{
    let n = packages.len();
    let mut out: Vec<Package> = Vec::new();
    let mut i: usize = 0;
    while i < n
        invariant
            n == packages@.len(),
            0 <= i <= n,
            out@.len() == i,
            forall|j: int| 0 <= j < i ==> out@[j]@ == packages@[j]@,
        decreases n - i,
    {
        let p = &packages[i];
        let m = p.releases.len();
        let mut releases: Vec<Release> = Vec::new();
        let mut k: usize = 0;
        while k < m
            invariant
                m == p.releases@.len(),
                0 <= k <= m,
                releases@.len() == k,
                forall|j: int| 0 <= j < k ==> releases@[j]@ == p.releases@[j]@,
            decreases m - k,
        {
            releases.push(copy_release(&p.releases[k]));
            k = k + 1;
        }
        assert(releases@.map_values(|r: Release| r@) =~= p.releases@.map_values(|r: Release| r@));
        out.push(Package { name: p.name.clone(), releases });
        i = i + 1;
    }
    assert(packages_view(out@) =~= packages_view(packages@));
    out
}

/// The releases put newest first by a stable sort.
fn sorted_releases(releases: &Vec<Release>) -> (r: Vec<Release>)
    ensures
        r@.map_values(|x: Release| x@) == sort_releases(releases@.map_values(|x: Release| x@)),
{
    let ghost rv = releases@.map_values(|x: Release| x@);
    let m = releases.len();
    let mut out: Vec<Release> = Vec::new();
    let mut k: usize = 0;
    while k < m
        invariant
            m == releases@.len(),
            rv == releases@.map_values(|x: Release| x@),
            0 <= k <= m,
            out@.map_values(|x: Release| x@) == sort_releases(rv.subrange(0, k as int)),
        decreases m - k,
    {
        let r = copy_release(&releases[k]);
        let ghost before = out@.map_values(|x: Release| x@);
        proof {
            lemma_sort_releases_ordered(rv.subrange(0, k as int));
            assert(rv.subrange(0, k + 1).drop_last() =~= rv.subrange(0, k as int));
            assert(rv.subrange(0, k + 1).last() == r@);
        }
        let at = insertion_index(&out, r.upload_time);
        out.insert(at, r);
        proof {
            assert(out@.map_values(|x: Release| x@) =~= before.insert(at as int, r@));
        }
        k = k + 1;
    }
    assert(rv.subrange(0, m as int) =~= rv);
    out
}

/// Where the package of this name stands in `packages`, if it is there.
fn position_of(packages: &Vec<Package>, name: &String) -> (r: Option<usize>)
    ensures
        r matches Some(i) ==> i < packages@.len() && packages_view(packages@)[i as int].name == name@,
        r is None ==> !has_package(packages_view(packages@), name@),
{
    let ghost pv = packages_view(packages@);
    let n = packages.len();
    let mut i: usize = 0;
    while i < n
        invariant
            n == packages@.len(),
            pv == packages_view(packages@),
            0 <= i <= n,
            forall|j: int| 0 <= j < i ==> pv[j].name != name@,
        decreases n - i,
    {
        assert(pv[i as int] == packages@[i as int]@);
        if packages[i].name == *name {
            return Some(i);
        }
        i = i + 1;
    }
    None
}

/// Adds a release to a well-formed list of packages, as `spec_add_release`
/// says.
fn add_to_packages(
    packages: &mut Vec<Package>,
    name: String,
    version: String,
    filename: String,
    upload_time: i64,
)
    requires
        catalog_wf(packages_view(old(packages)@)),
    ensures
        catalog_wf(packages_view(final(packages)@)),
        packages_view(final(packages)@) == spec_add_release(
            packages_view(old(packages)@),
            name@,
            ReleaseView { version: version@, filename: filename@, upload_time },
        ),
{
    let ghost ps = packages_view(packages@);
    let ghost name_v = name@;
    let ghost rv = ReleaseView { version: version@, filename: filename@, upload_time };
    let release = Release { version, filename, upload_time };
    match position_of(packages, &name) {
        Some(i) => {
            let mut pkg = packages.remove(i);
            proof {
                assert(ps[i as int] == pkg@);
                let j = package_index(ps, name_v);
                assert(ps[j].name == name_v);
            }
            let k = insertion_index(&pkg.releases, upload_time);
            let ghost old_rs = pkg.releases@;
            pkg.releases.insert(k, release);
            proof {
                assert(pkg.releases@.map_values(|r: Release| r@) =~= old_rs.map_values(
                    |r: Release| r@,
                ).insert(k as int, rv));
            }
            packages.insert(i, pkg);
            proof {
                assert(has_package(ps, name_v));
                assert(package_index(ps, name_v) == i);
                assert(with_release(ps[i as int].releases, rv) == pkg@.releases);
                assert(packages_view(packages@) =~= spec_add_release(ps, name_v, rv));
            }
        },
        None => {
            let mut releases: Vec<Release> = Vec::new();
            releases.push(release);
            proof {
                assert(releases@.map_values(|r: Release| r@) =~= seq![rv]);
            }
            packages.push(Package { name, releases });
            proof {
                assert(packages_view(packages@) =~= ps.push(PackageView { name: name_v, releases: seq![rv] }));
                assert(packages_view(packages@) =~= spec_add_release(ps, name_v, rv));
            }
        },
    }
    proof {
        lemma_add_keeps_catalog(ps, name_v, rv);
    }
}


/// The position at which a release uploaded at `t` goes among `releases`.
fn insertion_index(releases: &Vec<Release>, t: i64) -> (r: usize)
    ensures
        r == insertion_point(releases@.map_values(|x: Release| x@), t),
        r <= releases@.len(),
{
    let ghost rv = releases@.map_values(|x: Release| x@);
    let n = releases.len();
    let mut i: usize = 0;
    while i < n
        invariant
            n == releases@.len(),
            rv == releases@.map_values(|x: Release| x@),
            0 <= i <= n,
            forall|j: int| 0 <= j < i ==> rv[j].upload_time >= t,
        decreases n - i,
    {
        assert(rv[i as int] == releases@[i as int]@);
        if releases[i].upload_time < t {
            proof {
                lemma_insertion_point_is(rv, t, i as int);
            }
            return i;
        }
        i = i + 1;
    }
    proof {
        lemma_insertion_point_is(rv, t, i as int);
    }
    i
}

} // verus!
