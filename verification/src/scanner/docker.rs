//! Docker resources from what the engine lists.
//!
//! The program around the library talks to the engine and hands over the
//! listings as plain values.

use crate::bytes;
use crate::classify::group;
use crate::classify::group::sat_add;
use crate::model::docker::{DockerKind, DockerResource, DockerSnapshot};
use crate::stamp;
use crate::stamp::parse_rfc3339;
use crate::text;
use crate::text::{chars_of, copy_opt, same, string_of, strip_prefix, text_has};
use vstd::prelude::*;

verus! {

/// A container as the engine lists it.
#[derive(Debug, Clone)]
pub struct ContainerFacts {
    pub id: Option<String>,
    pub names: Option<Vec<String>>,
    pub running: bool,
    pub size_rw: Option<i64>,
    pub labels: Option<Vec<(String, String)>>,
    /// The names of mounted volumes, where a mount has one.
    pub mounts: Option<Vec<Option<String>>>,
    pub created: Option<i64>,
}

/// An image as the engine lists it.
#[derive(Debug, Clone)]
pub struct ImageFacts {
    pub id: String,
    pub repo_tags: Vec<String>,
    pub size: i64,
    pub created: i64,
}

/// A volume as the engine lists it.
#[derive(Debug, Clone)]
pub struct VolumeFacts {
    pub name: String,
    pub labels: Vec<(String, String)>,
    pub usage_size: Option<i64>,
    pub created_at: Option<String>,
}

/// A Docker resource as a model.
pub struct ResourceModel {
    pub kind: DockerKind,
    pub id: Seq<char>,
    pub name: Seq<char>,
    pub detail: Seq<char>,
    pub size_bytes: u64,
    pub compose: Option<Seq<char>>,
    pub persistent: bool,
    pub anonymous: bool,
    pub created: i64,
}

pub open spec fn resource_model(r: DockerResource) -> ResourceModel {
    ResourceModel {
        kind: r.kind,
        id: r.id@,
        name: r.name@,
        detail: r.detail@,
        size_bytes: r.size_bytes,
        compose: text::text_of(r.compose),
        persistent: r.persistent,
        anonymous: r.anonymous,
        created: r.created,
    }
}

pub open spec fn resource_models(v: Seq<DockerResource>) -> Seq<ResourceModel> {
    Seq::new(v.len(), |i: int| resource_model(v[i]))
}

/// A size, none below zero.
pub open spec fn size_of(n: i64) -> u64 {
    if n > 0 {
        n as u64
    } else {
        0
    }
}

pub open spec fn opt_size(n: Option<i64>) -> u64 {
    match n {
        Some(v) => size_of(v),
        None => 0,
    }
}

fn clamp_size(n: i64) -> (r: u64)
    ensures
        r == size_of(n),
{
    if n > 0 {
        n as u64
    } else {
        0
    }
}

/// The value of the first label with a key.
pub open spec fn label_of(labels: Seq<(String, String)>, key: Seq<char>) -> Option<Seq<char>>
    decreases labels.len(),
{
    if labels.len() == 0 {
        None
    } else if labels[0].0@ == key {
        Some(labels[0].1@)
    } else {
        label_of(labels.skip(1), key)
    }
}

fn find_label(labels: &Vec<(String, String)>, key: &str) -> (r: Option<String>)
    ensures
        text::text_of(r) == label_of(labels@, key@),
{
    let mut i: usize = 0;
    assert(labels@.skip(0) =~= labels@);
    while i < labels.len()
        invariant
            i <= labels.len(),
            label_of(labels@, key@) == label_of(labels@.skip(i as int), key@),
        decreases labels.len() - i,
    {
        assert(labels@.skip(i as int)[0] == labels@[i as int]);
        assert(labels@.skip(i as int).skip(1) =~= labels@.skip(i + 1));
        if same(labels[i].0.as_str(), key) {
            return Some(labels[i].1.clone());
        }
        i += 1;
    }
    None
}

/// A text without the slashes it starts with.
pub open spec fn without_slashes(s: Seq<char>) -> Seq<char>
    decreases s.len(),
{
    if s.len() > 0 && s[0] == '/' {
        without_slashes(s.skip(1))
    } else {
        s
    }
}

/// The first twelve characters.
pub open spec fn twelve(s: Seq<char>) -> Seq<char> {
    if s.len() <= 12 {
        s
    } else {
        s.take(12)
    }
}

/// A text without a digest prefix, however often it is repeated.
pub open spec fn without_digest(s: Seq<char>) -> Seq<char>
    decreases s.len(),
{
    if s.len() >= 7 && text::starts_with(s, "sha256:"@) {
        without_digest(s.skip(7))
    } else {
        s
    }
}

fn skip_slashes(s: &str) -> (r: String)
    ensures
        r@ == without_slashes(s@),
{
    let v: Vec<char> = chars_of(s);
    let mut k: usize = 0;
    assert(v@.skip(0) =~= v@);
    while k < v.len() && v[k] == '/'
        invariant
            k <= v.len(),
            without_slashes(s@) == without_slashes(v@.skip(k as int)),
        decreases v.len() - k,
    {
        assert(v@.skip(k as int)[0] == v@[k as int]);
        assert(v@.skip(k as int).skip(1) =~= v@.skip(k + 1));
        k += 1;
    }
    assert(k < v.len() ==> v@.skip(k as int)[0] == v@[k as int]);
    let r: String = string_of(&v, k, v.len());
    assert(r@ =~= v@.skip(k as int));
    r
}

fn first_twelve(s: &str) -> (r: String)
    ensures
        r@ == twelve(s@),
{
    let v: Vec<char> = chars_of(s);
    let n: usize = if v.len() <= 12 {
        v.len()
    } else {
        12
    };
    let r: String = string_of(&v, 0, n);
    assert(r@ =~= twelve(s@));
    r
}

fn short_id(id: &str) -> (r: String)
    ensures
        r@ == twelve(without_digest(id@)),
{
    proof {
        reveal_strlit("sha256:");
    }
    let mut bare: String = id.to_owned();
    loop
        invariant
            "sha256:"@.len() == 7,
            without_digest(bare@) == without_digest(id@),
        ensures
            bare@ == without_digest(id@),
        decreases bare@.len(),
    {
        match strip_prefix(bare.as_str(), "sha256:") {
            Some(rest) => {
                bare = rest;
            },
            None => {
                break;
            },
        }
    }
    first_twelve(bare.as_str())
}

// ---------------------------------------------------------------------------
// Rows
// ---------------------------------------------------------------------------

pub open spec fn container_name(c: ContainerFacts) -> Seq<char> {
    let listed = match c.names {
        Some(n) => if n@.len() > 0 {
            Some(without_slashes(n@[0]@))
        } else {
            None
        },
        None => None,
    };
    match listed {
        Some(n) => n,
        None => match c.id {
            Some(id) => twelve(id@),
            None => "?"@,
        },
    }
}

pub open spec fn container_resource(c: ContainerFacts) -> ResourceModel {
    ResourceModel {
        kind: DockerKind::Container,
        id: match c.id {
            Some(id) => id@,
            None => Seq::empty(),
        },
        name: container_name(c),
        detail: if c.running {
            "running"@
        } else {
            "stopped"@
        },
        size_bytes: opt_size(c.size_rw),
        compose: match c.labels {
            Some(l) => label_of(l@, "com.docker.compose.project"@),
            None => None,
        },
        persistent: false,
        anonymous: false,
        created: match c.created {
            Some(t) => t,
            None => 0,
        },
    }
}

fn container_row(c: &ContainerFacts) -> (r: DockerResource)
    ensures
        resource_model(r) == container_resource(*c),
{
    let mut listed: Option<String> = None;
    if let Some(n) = &c.names {
        if n.len() > 0 {
            listed = Some(skip_slashes(n[0].as_str()));
        }
    }
    let name: String = match listed {
        Some(n) => n,
        None => match &c.id {
            Some(id) => first_twelve(id.as_str()),
            None => "?".to_owned(),
        },
    };
    let id: String = match &c.id {
        Some(id) => id.clone(),
        None => String::new(),
    };
    assert(c.id is None ==> id@ =~= Seq::<char>::empty());
    DockerResource {
        kind: DockerKind::Container,
        id,
        name,
        detail: (if c.running {
            "running"
        } else {
            "stopped"
        }).to_owned(),
        size_bytes: match c.size_rw {
            Some(n) => clamp_size(n),
            None => 0,
        },
        compose: match &c.labels {
            Some(l) => find_label(l, "com.docker.compose.project"),
            None => None,
        },
        persistent: false,
        anonymous: false,
        created: match c.created {
            Some(t) => t,
            None => 0,
        },
    }
}

/// An image without a usable tag.
pub open spec fn is_dangling(img: ImageFacts) -> bool {
    forall|i: int|
        0 <= i < img.repo_tags@.len() ==> (#[trigger] img.repo_tags@[i])@.len() == 0
            || text::contains(img.repo_tags@[i]@, "<none>"@)
}

pub fn dangling(img: &ImageFacts) -> (r: bool)
    ensures
        r == is_dangling(*img),
{
    let mut i: usize = 0;
    while i < img.repo_tags.len()
        invariant
            i <= img.repo_tags.len(),
            forall|k: int|
                0 <= k < i ==> (#[trigger] img.repo_tags@[k])@.len() == 0 || text::contains(
                    img.repo_tags@[k]@,
                    "<none>"@,
                ),
        decreases img.repo_tags.len() - i,
    {
        let t: &str = img.repo_tags[i].as_str();
        if t.unicode_len() > 0 && !text_has(t, "<none>") {
            return false;
        }
        i += 1;
    }
    true
}

pub open spec fn dangling_resource(img: ImageFacts) -> ResourceModel {
    ResourceModel {
        kind: DockerKind::DanglingImage,
        id: img.id@,
        name: twelve(without_digest(img.id@)),
        detail: "dangling"@,
        size_bytes: size_of(img.size),
        compose: None,
        persistent: false,
        anonymous: false,
        created: if img.created > 0 {
            img.created
        } else {
            0
        },
    }
}

fn dangling_row(img: &ImageFacts) -> (r: DockerResource)
    ensures
        resource_model(r) == dangling_resource(*img),
{
    DockerResource {
        kind: DockerKind::DanglingImage,
        id: img.id.clone(),
        name: short_id(img.id.as_str()),
        detail: "dangling".to_owned(),
        size_bytes: clamp_size(img.size),
        compose: None,
        persistent: false,
        anonymous: false,
        created: if img.created > 0 {
            img.created
        } else {
            0
        },
    }
}

pub open spec fn volume_resource(vol: VolumeFacts, attached: bool) -> ResourceModel {
    ResourceModel {
        kind: DockerKind::Volume,
        id: vol.name@,
        name: vol.name@,
        detail: if attached {
            "attached"@
        } else {
            "unused"@
        },
        size_bytes: opt_size(vol.usage_size),
        compose: label_of(vol.labels@, "com.docker.compose.project"@),
        persistent: true,
        anonymous: label_of(vol.labels@, "com.docker.volume.anonymous"@) is Some,
        created: match vol.created_at {
            Some(t) => stamp::stamp_secs(bytes::utf8(t@)) as i64,
            None => 0,
        },
    }
}

fn volume_row(vol: &VolumeFacts, attached: bool) -> (r: DockerResource)
    ensures
        resource_model(r) == volume_resource(*vol, attached),
{
    DockerResource {
        kind: DockerKind::Volume,
        id: vol.name.clone(),
        name: vol.name.clone(),
        detail: (if attached {
            "attached"
        } else {
            "unused"
        }).to_owned(),
        size_bytes: match vol.usage_size {
            Some(n) => clamp_size(n),
            None => 0,
        },
        compose: find_label(&vol.labels, "com.docker.compose.project"),
        persistent: true,
        anonymous: find_label(&vol.labels, "com.docker.volume.anonymous").is_some(),
        created: match &vol.created_at {
            Some(t) => parse_rfc3339(t.as_str()),
            None => 0,
        },
    }
}

/// A container mounts a volume of this name.
pub open spec fn mounts_volume(c: ContainerFacts, name: Seq<char>) -> bool {
    match c.mounts {
        Some(m) => exists|k: int| 0 <= k < m@.len() && text::text_of(#[trigger] m@[k]) == Some(name),
        None => false,
    }
}

pub open spec fn is_attached(containers: Seq<ContainerFacts>, name: Seq<char>) -> bool {
    exists|i: int| 0 <= i < containers.len() && mounts_volume(#[trigger] containers[i], name)
}

fn mounts(c: &ContainerFacts, name: &str) -> (r: bool)
    ensures
        r == mounts_volume(*c, name@),
{
    match &c.mounts {
        None => false,
        Some(m) => {
            let mut k: usize = 0;
            while k < m.len()
                invariant
                    k <= m.len(),
                    c.mounts == Some(*m),
                    forall|j: int|
                        0 <= j < k ==> text::text_of(#[trigger] m@[j]) != Some(name@),
                decreases m.len() - k,
            {
                if let Some(n) = &m[k] {
                    if same(n.as_str(), name) {
                        assert(text::text_of(m@[k as int]) == Some(name@));
                        return true;
                    }
                }
                k += 1;
            }
            false
        },
    }
}

fn attached(containers: &Vec<ContainerFacts>, name: &str) -> (r: bool)
    ensures
        r == is_attached(containers@, name@),
{
    let mut i: usize = 0;
    while i < containers.len()
        invariant
            i <= containers.len(),
            forall|k: int| 0 <= k < i ==> !mounts_volume(#[trigger] containers@[k], name@),
        decreases containers.len() - i,
    {
        if mounts(&containers[i], name) {
            assert(mounts_volume(containers@[i as int], name@));
            return true;
        }
        i += 1;
    }
    false
}

// ---------------------------------------------------------------------------
// The listing
// ---------------------------------------------------------------------------

pub open spec fn container_rows(cs: Seq<ContainerFacts>) -> Seq<ResourceModel> {
    Seq::new(cs.len(), |i: int| container_resource(cs[i]))
}

pub open spec fn image_rows(images: Seq<ImageFacts>) -> Seq<ResourceModel>
    decreases images.len(),
{
    if images.len() == 0 {
        Seq::empty()
    } else {
        let rest = image_rows(images.drop_last());
        if is_dangling(images.last()) {
            rest.push(dangling_resource(images.last()))
        } else {
            rest
        }
    }
}

pub open spec fn volume_rows(vols: Seq<VolumeFacts>, cs: Seq<ContainerFacts>) -> Seq<
    ResourceModel,
> {
    Seq::new(vols.len(), |i: int| volume_resource(vols[i], is_attached(cs, vols[i].name@)))
}

/// The build cache, where any of it can be reclaimed.
pub open spec fn cache_rows(reclaimable: Option<i64>) -> Seq<ResourceModel> {
    if opt_size(reclaimable) > 0 {
        seq![
            ResourceModel {
                kind: DockerKind::BuildCache,
                id: "*build-cache"@,
                name: "build cache"@,
                detail: "reclaimable"@,
                size_bytes: opt_size(reclaimable),
                compose: None,
                persistent: false,
                anonymous: false,
                created: 0,
            },
        ]
    } else {
        Seq::empty()
    }
}

pub open spec fn runs(r: ResourceModel) -> bool {
    r.kind == DockerKind::Container && r.detail == "running"@
}

/// The resources that run, or those that do not, in order.
pub open spec fn picked(rs: Seq<ResourceModel>, running: bool) -> Seq<ResourceModel>
    decreases rs.len(),
{
    if rs.len() == 0 {
        Seq::empty()
    } else {
        let rest = picked(rs.drop_last(), running);
        if runs(rs.last()) == running {
            rest.push(rs.last())
        } else {
            rest
        }
    }
}

/// Running containers on top; the rest keeps its grouping by kind.
pub open spec fn running_first(rs: Seq<ResourceModel>) -> Seq<ResourceModel> {
    picked(rs, true) + picked(rs, false)
}

pub open spec fn is_reclaimable(r: ResourceModel) -> bool {
    ||| r.kind == DockerKind::DanglingImage
    ||| r.kind == DockerKind::BuildCache
    ||| (r.kind == DockerKind::Container && r.detail == "stopped"@)
    ||| (r.kind == DockerKind::Volume && r.detail == "unused"@)
}

/// Bytes of all resources, the largest number where they exceed it.
pub open spec fn disk_sum(rs: Seq<ResourceModel>) -> u64
    decreases rs.len(),
{
    if rs.len() == 0 {
        0
    } else {
        group::sat(disk_sum(rs.drop_last()), rs.last().size_bytes)
    }
}

/// Bytes of the resources that can be reclaimed.
pub open spec fn reclaimable_sum(rs: Seq<ResourceModel>) -> u64
    decreases rs.len(),
{
    if rs.len() == 0 {
        0
    } else if is_reclaimable(rs.last()) {
        group::sat(reclaimable_sum(rs.drop_last()), rs.last().size_bytes)
    } else {
        reclaimable_sum(rs.drop_last())
    }
}

/// Everything the engine lists, as resources.
pub open spec fn listing(
    containers: Seq<ContainerFacts>,
    images: Seq<ImageFacts>,
    volumes: Option<Vec<VolumeFacts>>,
    cache: Option<i64>,
) -> Seq<ResourceModel> {
    running_first(
        container_rows(containers) + image_rows(images) + (match volumes {
            Some(v) => volume_rows(v@, containers),
            None => Seq::empty(),
        }) + cache_rows(cache),
    )
}

/// No more can be reclaimed than there is.
pub proof fn reclaimable_is_part_of_the_disk(rs: Seq<ResourceModel>)
    ensures
        reclaimable_sum(rs) <= disk_sum(rs),
    decreases rs.len(),
{
    if rs.len() > 0 {
        reclaimable_is_part_of_the_disk(rs.drop_last());
    }
}

/// Running containers stand before everything else, and nothing is lost or
/// added by that.
pub proof fn running_containers_come_first(rs: Seq<ResourceModel>)
    ensures
        running_first(rs).len() == rs.len(),
        forall|i: int, j: int|
            0 <= i < j < rs.len() && runs(#[trigger] running_first(rs)[j]) ==> runs(
                #[trigger] running_first(rs)[i],
            ),
        running_first(rs).to_multiset() == rs.to_multiset(),
    decreases rs.len(),
{
    picked_facts(rs, true);
    picked_facts(rs, false);
    picked_all(rs);
    let a = picked(rs, true);
    let b = picked(rs, false);
    let all = running_first(rs);
    assert forall|i: int, j: int|
        0 <= i < j < rs.len() && runs(#[trigger] all[j]) implies runs(#[trigger] all[i]) by {
        if j >= a.len() {
            assert(all[j] == b[j - a.len()]);
        } else {
            assert(all[i] == a[i]);
        }
    }
}

proof fn picked_facts(rs: Seq<ResourceModel>, running: bool)
    ensures
        forall|i: int|
            0 <= i < picked(rs, running).len() ==> runs(#[trigger] picked(rs, running)[i])
                == running,
    decreases rs.len(),
{
    if rs.len() > 0 {
        picked_facts(rs.drop_last(), running);
        let rest = picked(rs.drop_last(), running);
        assert forall|i: int| 0 <= i < picked(rs, running).len() implies runs(
            #[trigger] picked(rs, running)[i],
        ) == running by {
            if i < rest.len() {
                assert(picked(rs, running)[i] == rest[i]);
            }
        }
    }
}

proof fn picked_all(rs: Seq<ResourceModel>)
    ensures
        picked(rs, true).len() + picked(rs, false).len() == rs.len(),
        (picked(rs, true) + picked(rs, false)).to_multiset() == rs.to_multiset(),
    decreases rs.len(),
{
    broadcast use vstd::seq_lib::group_to_multiset_ensures;

    let a = picked(rs, true);
    let b = picked(rs, false);
    vstd::seq_lib::lemma_multiset_commutative(a, b);
    if rs.len() > 0 {
        let front = rs.drop_last();
        picked_all(front);
        let a0 = picked(front, true);
        let b0 = picked(front, false);
        vstd::seq_lib::lemma_multiset_commutative(a0, b0);
        assert(rs =~= front.push(rs.last()));
        assert(rs.to_multiset() =~= front.to_multiset().insert(rs.last()));
        if runs(rs.last()) {
            assert(a == a0.push(rs.last()) && b == b0);
            assert(a.to_multiset() =~= a0.to_multiset().insert(rs.last()));
        } else {
            assert(b == b0.push(rs.last()) && a == a0);
            assert(b.to_multiset() =~= b0.to_multiset().insert(rs.last()));
        }
        assert((a + b).to_multiset() =~= rs.to_multiset());
    } else {
        assert(a + b =~= rs);
    }
}

proof fn row_stays_listed(rs: Seq<ResourceModel>, k: int)
    requires
        0 <= k < rs.len(),
    ensures
        running_first(rs).contains(rs[k]),
{
    broadcast use vstd::seq_lib::group_to_multiset_ensures;

    running_containers_come_first(rs);
    assert(rs.contains(rs[k]));
    assert(rs.to_multiset().count(rs[k]) > 0);
    assert(running_first(rs).to_multiset().count(rs[k]) > 0);
}

/// Every container is listed: by its id, as running or stopped, with its own
/// size where it is known and not negative, under its first name without the
/// leading slash, and with the project of its compose label.
pub proof fn every_container_is_listed(
    containers: Seq<ContainerFacts>,
    images: Seq<ImageFacts>,
    volumes: Option<Vec<VolumeFacts>>,
    cache: Option<i64>,
    i: int,
)
    requires
        0 <= i < containers.len(),
    ensures
        exists|k: int|
            0 <= k < listing(containers, images, volumes, cache).len() && {
                let r = #[trigger] listing(containers, images, volumes, cache)[k];
                let c = containers[i];
                &&& r.kind == DockerKind::Container
                &&& c.id is Some ==> r.id == c.id->0@
                &&& r.detail == (if c.running {
                    "running"@
                } else {
                    "stopped"@
                })
                &&& r.size_bytes == (if c.size_rw is Some && c.size_rw->0 > 0 {
                    c.size_rw->0 as int
                } else {
                    0
                })
                &&& c.created is Some ==> r.created == c.created->0
                &&& !r.persistent && !r.anonymous
                &&& c.names is Some && c.names->0@.len() > 0 && c.names->0@[0]@.len() > 0
                    && c.names->0@[0]@[0] != '/' ==> r.name == c.names->0@[0]@
                &&& (c.names is None || c.names->0@.len() == 0) && c.id is Some && c.id->0@.len()
                    <= 12 ==> r.name == c.id->0@
                &&& c.labels is None ==> r.compose is None
            },
{
    let rows = container_rows(containers) + image_rows(images) + (match volumes {
        Some(v) => volume_rows(v@, containers),
        None => Seq::empty(),
    }) + cache_rows(cache);
    assert(rows[i] == container_resource(containers[i]));
    row_stays_listed(rows, i);
    let all = listing(containers, images, volumes, cache);
    let k = choose|k: int| 0 <= k < all.len() && all[k] == rows[i];
    assert(all[k] == container_resource(containers[i]));
}

/// Every volume is listed and persists. It is unused where no container
/// mounts it by name, and attached where one does.
pub proof fn every_volume_is_listed(
    containers: Seq<ContainerFacts>,
    images: Seq<ImageFacts>,
    volumes: Vec<VolumeFacts>,
    cache: Option<i64>,
    i: int,
)
    requires
        0 <= i < volumes@.len(),
    ensures
        exists|k: int|
            0 <= k < listing(containers, images, Some(volumes), cache).len() && {
                let r = #[trigger] listing(containers, images, Some(volumes), cache)[k];
                let v = volumes@[i];
                let used = exists|c: int, m: int|
                    0 <= c < containers.len() && containers[c].mounts is Some && 0 <= m
                        < containers[c].mounts->0@.len() && text::text_of(
                        #[trigger] containers[c].mounts->0@[m],
                    ) == Some(v.name@);
                &&& r.kind == DockerKind::Volume
                &&& r.id == v.name@
                &&& r.name == v.name@
                &&& r.persistent
                &&& r.detail == (if used {
                    "attached"@
                } else {
                    "unused"@
                })
                &&& r.size_bytes == (if v.usage_size is Some && v.usage_size->0 > 0 {
                    v.usage_size->0 as int
                } else {
                    0
                })
                &&& v.labels@.len() == 0 ==> !r.anonymous && r.compose is None
            },
{
    let before = container_rows(containers) + image_rows(images);
    let vols = volume_rows(volumes@, containers);
    let rows = before + vols + cache_rows(cache);
    let v = volumes@[i];
    let at = before.len() + i;
    assert(rows[at] == vols[i]);
    row_stays_listed(rows, at);
    let all = listing(containers, images, Some(volumes), cache);
    let k = choose|k: int| 0 <= k < all.len() && all[k] == rows[at];
    let used = exists|c: int, m: int|
        0 <= c < containers.len() && containers[c].mounts is Some && 0 <= m
            < containers[c].mounts->0@.len() && text::text_of(
            #[trigger] containers[c].mounts->0@[m],
        ) == Some(v.name@);
    assert(is_attached(containers, v.name@) == used) by {
        if is_attached(containers, v.name@) {
            let c = choose|c: int|
                0 <= c < containers.len() && mounts_volume(#[trigger] containers[c], v.name@);
            let m = choose|m: int|
                0 <= m < containers[c].mounts->0@.len() && text::text_of(
                    #[trigger] containers[c].mounts->0@[m],
                ) == Some(v.name@);
            assert(text::text_of(containers[c].mounts->0@[m]) == Some(v.name@));
        }
        if used {
            let (c, m) = choose|c: int, m: int|
                0 <= c < containers.len() && containers[c].mounts is Some && 0 <= m
                    < containers[c].mounts->0@.len() && text::text_of(
                    #[trigger] containers[c].mounts->0@[m],
                ) == Some(v.name@);
            assert(mounts_volume(containers[c], v.name@));
        }
    }
    assert(all[k] == volume_resource(v, is_attached(containers, v.name@)));
}

/// An image is listed where none of its tags can be used, and no other is:
/// the listing holds the containers, those images, the volumes, and the build
/// cache where some of it can be reclaimed.
pub proof fn only_dangling_images_are_listed(
    containers: Seq<ContainerFacts>,
    images: Seq<ImageFacts>,
    volumes: Option<Vec<VolumeFacts>>,
    cache: Option<i64>,
)
    ensures
        listing(containers, images, volumes, cache).len() == containers.len() + images.filter(
            |img: ImageFacts|
                forall|i: int|
                    0 <= i < img.repo_tags@.len() ==> (#[trigger] img.repo_tags@[i])@.len() == 0
                        || text::contains(img.repo_tags@[i]@, "<none>"@),
        ).len() + (match volumes {
            Some(v) => v@.len(),
            None => 0,
        }) + (if cache is Some && cache->0 > 0 {
            1nat
        } else {
            0
        }),
{
    let rows = container_rows(containers) + image_rows(images) + (match volumes {
        Some(v) => volume_rows(v@, containers),
        None => Seq::empty(),
    }) + cache_rows(cache);
    running_containers_come_first(rows);
    image_rows_are_the_dangling(images);
}

proof fn image_rows_are_the_dangling(images: Seq<ImageFacts>)
    ensures
        image_rows(images).len() == images.filter(
            |img: ImageFacts|
                forall|i: int|
                    0 <= i < img.repo_tags@.len() ==> (#[trigger] img.repo_tags@[i])@.len() == 0
                        || text::contains(img.repo_tags@[i]@, "<none>"@),
        ).len(),
        forall|k: int|
            0 <= k < image_rows(images).len() ==> (#[trigger] image_rows(images)[k]).kind
                == DockerKind::DanglingImage && image_rows(images)[k].detail == "dangling"@
                && !image_rows(images)[k].persistent,
    decreases images.len(),
{
    reveal(Seq::filter);
    if images.len() > 0 {
        image_rows_are_the_dangling(images.drop_last());
    }
}

/// The bytes of all resources together, and of those among them that can be
/// reclaimed: dangling images, the build cache, stopped containers and unused
/// volumes. Where a sum does not fit, it is the largest number.
pub proof fn sums_are_over_the_listed_sizes(rs: Seq<ResourceModel>)
    ensures
        ({
            let all = rs.fold_left(0nat, |sum: nat, r: ResourceModel| sum + r.size_bytes as nat);
            disk_sum(rs) == (if all > u64::MAX {
                u64::MAX as nat
            } else {
                all
            })
        }),
        reclaimable_sum(rs) == disk_sum(
            rs.filter(
                |r: ResourceModel|
                    r.kind == DockerKind::DanglingImage || r.kind == DockerKind::BuildCache || (
                    r.kind == DockerKind::Container && r.detail == "stopped"@) || (r.kind
                        == DockerKind::Volume && r.detail == "unused"@),
            ),
        ),
    decreases rs.len(),
{
    reveal(Seq::filter);
    let free = |r: ResourceModel|
        r.kind == DockerKind::DanglingImage || r.kind == DockerKind::BuildCache || (r.kind
            == DockerKind::Container && r.detail == "stopped"@) || (r.kind == DockerKind::Volume
            && r.detail == "unused"@);
    if rs.len() > 0 {
        let front = rs.drop_last();
        sums_are_over_the_listed_sizes(front);
        if free(rs.last()) {
            let kept = front.filter(free);
            assert(rs.filter(free) == kept.push(rs.last()));
            assert(kept.push(rs.last()).drop_last() =~= kept);
        }
    }
}

/// The order of the rows does not change the sums.
pub proof fn sums_do_not_depend_on_the_order(rs: Seq<ResourceModel>, x: ResourceModel, at: int)
    requires
        0 <= at <= rs.len(),
    ensures
        disk_sum(rs.insert(at, x)) == group::sat(disk_sum(rs), x.size_bytes),
        reclaimable_sum(rs.insert(at, x)) == (if is_reclaimable(x) {
            group::sat(reclaimable_sum(rs), x.size_bytes)
        } else {
            reclaimable_sum(rs)
        }),
    decreases rs.len(),
{
    let more = rs.insert(at, x);
    if at == rs.len() {
        assert(more.drop_last() =~= rs);
    } else {
        sums_do_not_depend_on_the_order(rs.drop_last(), x, at);
        assert(more.drop_last() =~= rs.drop_last().insert(at, x));
        assert(more.last() == rs.last());
    }
}

fn reclaims(r: &DockerResource) -> (b: bool)
    ensures
        b == is_reclaimable(resource_model(*r)),
{
    r.kind == DockerKind::DanglingImage || r.kind == DockerKind::BuildCache || (r.kind
        == DockerKind::Container && same(r.detail.as_str(), "stopped")) || (r.kind
        == DockerKind::Volume && same(r.detail.as_str(), "unused"))
}

fn copy_resource(r: &DockerResource) -> (c: DockerResource)
    ensures
        resource_model(c) == resource_model(*r),
{
    DockerResource {
        kind: r.kind,
        id: r.id.clone(),
        name: r.name.clone(),
        detail: r.detail.clone(),
        size_bytes: r.size_bytes,
        compose: copy_opt(&r.compose),
        persistent: r.persistent,
        anonymous: r.anonymous,
        created: r.created,
    }
}

fn add_picked(rows: &Vec<DockerResource>, running: bool, out: &mut Vec<DockerResource>)
    ensures
        resource_models(final(out)@) == resource_models(old(out)@) + picked(
            resource_models(rows@),
            running,
        ),
{
    let ghost ms = resource_models(rows@);
    let ghost start = resource_models(out@);
    let mut i: usize = 0;
    assert(ms.take(0) =~= Seq::<ResourceModel>::empty());
    assert(start + picked(ms.take(0), running) =~= start);
    while i < rows.len()
        invariant
            i <= rows.len(),
            ms == resource_models(rows@),
            resource_models(out@) == start + picked(ms.take(i as int), running),
        decreases rows.len() - i,
    {
        assert(ms.take(i + 1).drop_last() =~= ms.take(i as int));
        assert(ms.take(i + 1).last() == resource_model(rows@[i as int]));
        let ghost before = resource_models(out@);
        if rows[i].running() == running {
            let c: DockerResource = copy_resource(&rows[i]);
            let ghost cm = resource_model(c);
            out.push(c);
            assert(resource_models(out@) =~= before.push(cm));
            assert(before.push(cm) =~= start + picked(ms.take(i + 1), running));
        }
        i += 1;
    }
    assert(ms.take(ms.len() as int) =~= ms);
}

/// One snapshot from the engine's listings. `volumes` is none where the
/// engine lists none; `cache` is the size of the reclaimable build cache.
pub fn assemble(
    containers: &Vec<ContainerFacts>,
    images: &Vec<ImageFacts>,
    volumes: &Option<Vec<VolumeFacts>>,
    cache: Option<i64>,
) -> (r: DockerSnapshot)
    ensures
        r.ok,
        r.note@.len() == 0,
        resource_models(r.resources@) == listing(containers@, images@, *volumes, cache),
        r.disk_bytes == disk_sum(resource_models(r.resources@)),
        r.reclaimable_bytes == reclaimable_sum(resource_models(r.resources@)),
{
    let mut rows: Vec<DockerResource> = Vec::new();
    let mut i: usize = 0;
    assert(resource_models(rows@) =~= container_rows(containers@).take(0));
    while i < containers.len()
        invariant
            i <= containers.len(),
            resource_models(rows@) == container_rows(containers@).take(i as int),
        decreases containers.len() - i,
    {
        let ghost before = resource_models(rows@);
        let row: DockerResource = container_row(&containers[i]);
        let ghost m = resource_model(row);
        rows.push(row);
        assert(resource_models(rows@) =~= before.push(m));
        assert(container_rows(containers@).take(i + 1) =~= before.push(m));
        i += 1;
    }
    assert(container_rows(containers@).take(containers@.len() as int) =~= container_rows(
        containers@,
    ));
    let ghost a = resource_models(rows@);
    let mut i: usize = 0;
    assert(images@.take(0) =~= Seq::<ImageFacts>::empty());
    assert(a + image_rows(images@.take(0)) =~= a);
    while i < images.len()
        invariant
            i <= images.len(),
            resource_models(rows@) == a + image_rows(images@.take(i as int)),
        decreases images.len() - i,
    {
        assert(images@.take(i + 1).drop_last() =~= images@.take(i as int));
        let ghost before = resource_models(rows@);
        if dangling(&images[i]) {
            let row: DockerResource = dangling_row(&images[i]);
            let ghost m = resource_model(row);
            rows.push(row);
            assert(resource_models(rows@) =~= before.push(m));
            assert(before.push(m) =~= a + image_rows(images@.take(i + 1)));
        }
        i += 1;
    }
    assert(images@.take(images@.len() as int) =~= images@);
    let ghost b = resource_models(rows@);
    if let Some(vols) = volumes {
        let ghost want = volume_rows(vols@, containers@);
        let mut i: usize = 0;
        assert(b + want.take(0) =~= b);
        while i < vols.len()
            invariant
                i <= vols.len(),
                want == volume_rows(vols@, containers@),
                resource_models(rows@) == b + want.take(i as int),
            decreases vols.len() - i,
        {
            let ghost before = resource_models(rows@);
            let row: DockerResource = volume_row(
                &vols[i],
                attached(containers, vols[i].name.as_str()),
            );
            let ghost m = resource_model(row);
            rows.push(row);
            assert(resource_models(rows@) =~= before.push(m));
            assert(b + want.take(i + 1) =~= before.push(m));
            i += 1;
        }
        assert(want.take(want.len() as int) =~= want);
    } else {
        assert(b + Seq::<ResourceModel>::empty() =~= b);
    }
    let ghost c = resource_models(rows@);
    let size: u64 = match cache {
        Some(n) => clamp_size(n),
        None => 0,
    };
    if size > 0 {
        let row: DockerResource = DockerResource {
            kind: DockerKind::BuildCache,
            id: "*build-cache".to_owned(),
            name: "build cache".to_owned(),
            detail: "reclaimable".to_owned(),
            size_bytes: size,
            compose: None,
            persistent: false,
            anonymous: false,
            created: 0,
        };
        let ghost m = resource_model(row);
        rows.push(row);
        assert(resource_models(rows@) =~= c.push(m));
        assert(c + cache_rows(cache) =~= c.push(m));
    } else {
        assert(c + cache_rows(cache) =~= c);
    }
    let mut resources: Vec<DockerResource> = Vec::new();
    assert(resource_models(resources@) =~= Seq::<ResourceModel>::empty());
    add_picked(&rows, true, &mut resources);
    assert(resource_models(resources@) =~= picked(resource_models(rows@), true));
    add_picked(&rows, false, &mut resources);
    let ghost ms = resource_models(resources@);
    let mut disk_bytes: u64 = 0;
    let mut reclaimable_bytes: u64 = 0;
    let mut i: usize = 0;
    assert(ms.take(0) =~= Seq::<ResourceModel>::empty());
    while i < resources.len()
        invariant
            i <= resources.len(),
            ms == resource_models(resources@),
            disk_bytes == disk_sum(ms.take(i as int)),
            reclaimable_bytes == reclaimable_sum(ms.take(i as int)),
        decreases resources.len() - i,
    {
        assert(ms.take(i + 1).drop_last() =~= ms.take(i as int));
        assert(ms.take(i + 1).last() == resource_model(resources@[i as int]));
        disk_bytes = sat_add(disk_bytes, resources[i].size_bytes);
        if reclaims(&resources[i]) {
            reclaimable_bytes = sat_add(reclaimable_bytes, resources[i].size_bytes);
        }
        i += 1;
    }
    assert(ms.take(ms.len() as int) =~= ms);
    DockerSnapshot { ok: true, note: String::new(), disk_bytes, reclaimable_bytes, resources }
}

/// The build cache is one entry where something of it can be reclaimed, with
/// that size; it never persists.
pub proof fn the_build_cache_is_one_entry(reclaimable: Option<i64>)
    ensures
        reclaimable is Some && reclaimable->0 > 0 ==> cache_rows(reclaimable).len() == 1
            && cache_rows(reclaimable)[0].kind == DockerKind::BuildCache
            && cache_rows(reclaimable)[0].size_bytes == reclaimable->0 && !cache_rows(
            reclaimable,
        )[0].persistent && !cache_rows(reclaimable)[0].anonymous && is_reclaimable(
            cache_rows(reclaimable)[0],
        ) && !runs(cache_rows(reclaimable)[0]),
        reclaimable is None || reclaimable->0 <= 0 ==> cache_rows(reclaimable).len() == 0,
{
}

/// Only volumes persist, and all of them do.
pub proof fn only_volumes_persist(
    c: ContainerFacts,
    img: ImageFacts,
    vol: VolumeFacts,
    attached: bool,
)
    ensures
        !container_resource(c).persistent,
        !dangling_resource(img).persistent,
        volume_resource(vol, attached).persistent,
        !container_resource(c).anonymous,
        !dangling_resource(img).anonymous,
        runs(container_resource(c)) <==> c.running,
        !runs(dangling_resource(img)),
        !runs(volume_resource(vol, attached)),
        is_reclaimable(container_resource(c)) <==> !c.running,
        is_reclaimable(dangling_resource(img)),
        is_reclaimable(volume_resource(vol, attached)) <==> !attached,
{
    reveal_strlit("running");
    reveal_strlit("stopped");
    reveal_strlit("attached");
    reveal_strlit("unused");
    assert("running"@[0] == 'r' && "stopped"@[0] == 's' && "attached"@[0] == 'a' && "unused"@[0]
        == 'u');
}

/// Those that run keep their order on top, and so do the others behind them.
pub proof fn each_half_keeps_its_order(rs: Seq<ResourceModel>, running: bool)
    ensures
        picked(rs, running) == rs.filter(
            |r: ResourceModel|
                (r.kind == DockerKind::Container && r.detail == "running"@) == running,
        ),
        running_first(rs) == picked(rs, true) + picked(rs, false),
    decreases rs.len(),
{
    reveal(Seq::filter);
    if rs.len() > 0 {
        each_half_keeps_its_order(rs.drop_last(), running);
    }
}

/// A label has the value of the first entry with its key.
pub proof fn the_first_label_counts(labels: Seq<(String, String)>, key: Seq<char>, k: int)
    requires
        0 <= k < labels.len(),
        labels[k].0@ == key,
        forall|j: int| 0 <= j < k ==> (#[trigger] labels[j]).0@ != key,
    ensures
        label_of(labels, key) == Some(labels[k].1@),
    decreases k,
{
    if k > 0 {
        let rest = labels.skip(1);
        assert(labels[0].0@ != key);
        assert(rest[k - 1] == labels[k]);
        assert forall|j: int| 0 <= j < k - 1 implies (#[trigger] rest[j]).0@ != key by {
            assert(rest[j] == labels[j + 1]);
        }
        the_first_label_counts(rest, key, k - 1);
    }
}

/// A container goes by its first name without leading slashes, or else by the
/// first twelve characters of its id.
pub proof fn containers_go_by_name_or_short_id(c: ContainerFacts, n: int)
    requires
        0 <= n,
    ensures
        c.names is Some && c.names->0@.len() > 0 && n <= c.names->0@[0]@.len() && (forall|j: int|
            0 <= j < n ==> #[trigger] c.names->0@[0]@[j] == '/') && (n < c.names->0@[0]@.len()
            ==> c.names->0@[0]@[n] != '/') ==> container_name(c) == c.names->0@[0]@.skip(n),
        (c.names is None || c.names->0@.len() == 0) && c.id is Some && c.id->0@.len() > 12
            ==> container_name(c) == c.id->0@.take(12),
        (c.names is None || c.names->0@.len() == 0) && c.id is Some && c.id->0@.len() <= 12
            ==> container_name(c) == c.id->0@,
{
    if c.names is Some && c.names->0@.len() > 0 {
        let s = c.names->0@[0]@;
        if n <= s.len() && (forall|j: int| 0 <= j < n ==> #[trigger] s[j] == '/') && (n < s.len()
            ==> s[n] != '/') {
            slashes_go(s, n);
        }
    }
}

proof fn slashes_go(s: Seq<char>, n: int)
    requires
        0 <= n <= s.len(),
        forall|j: int| 0 <= j < n ==> #[trigger] s[j] == '/',
        n < s.len() ==> s[n] != '/',
    ensures
        without_slashes(s) == s.skip(n),
    decreases n,
{
    if n > 0 {
        let rest = s.skip(1);
        assert(s[0] == '/');
        assert forall|j: int| 0 <= j < n - 1 implies #[trigger] rest[j] == '/' by {
            assert(rest[j] == s[j + 1]);
        }
        if n - 1 < rest.len() {
            assert(rest[n - 1] == s[n]);
        }
        slashes_go(rest, n - 1);
        assert(rest.skip(n - 1) =~= s.skip(n));
    } else {
        assert(s.skip(0) =~= s);
    }
}

} // verus!
