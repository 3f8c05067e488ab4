//! Reference extraction: every ConfigMap or Secret name a Pod template
//! mentions through volumes, container environment variables, or
//! `envFrom` sources. Init containers are traversed like regular ones.
use vstd::prelude::*;

verus! {

/// The two kinds of referent this controller tracks.
#[derive(Clone, Copy, Debug, PartialEq, Eq, Structural)]
pub enum RefKind {
    ConfigMap,
    Secret,
}

/// A volume of a Pod template, reduced to the referent names it may carry.
pub struct Volume {
    pub config_map_name: Option<Vec<u8>>,
    pub secret_name: Option<Vec<u8>>,
}

/// An environment variable, reduced to the `valueFrom` key references.
pub struct EnvVar {
    pub config_map_key_ref_name: Option<Vec<u8>>,
    pub secret_key_ref_name: Option<Vec<u8>>,
}

/// An `envFrom` source of a container.
pub struct EnvFromSource {
    pub config_map_ref_name: Option<Vec<u8>>,
    pub secret_ref_name: Option<Vec<u8>>,
}

/// A container: its environment variables and `envFrom` sources.
pub struct Container {
    pub env: Vec<EnvVar>,
    pub env_from: Vec<EnvFromSource>,
}

/// A Pod spec, reduced to the fields the extractor traverses.
pub struct PodSpec {
    pub volumes: Vec<Volume>,
    pub containers: Vec<Container>,
    pub init_containers: Vec<Container>,
}

/// The views of a vector of byte strings.
pub open spec fn views_of(s: Seq<Vec<u8>>) -> Seq<Seq<u8>> {
    s.map_values(|x: Vec<u8>| x@)
}

pub open spec fn volume_ref(v: Volume, kind: RefKind) -> Option<Seq<u8>> {
    match kind {
        RefKind::ConfigMap => match v.config_map_name {
            Some(n) => Some(n@),
            None => None,
        },
        RefKind::Secret => match v.secret_name {
            Some(n) => Some(n@),
            None => None,
        },
    }
}

pub open spec fn env_var_ref(e: EnvVar, kind: RefKind) -> Option<Seq<u8>> {
    match kind {
        RefKind::ConfigMap => match e.config_map_key_ref_name {
            Some(n) => Some(n@),
            None => None,
        },
        RefKind::Secret => match e.secret_key_ref_name {
            Some(n) => Some(n@),
            None => None,
        },
    }
}

pub open spec fn env_from_ref(e: EnvFromSource, kind: RefKind) -> Option<Seq<u8>> {
    match kind {
        RefKind::ConfigMap => match e.config_map_ref_name {
            Some(n) => Some(n@),
            None => None,
        },
        RefKind::Secret => match e.secret_ref_name {
            Some(n) => Some(n@),
            None => None,
        },
    }
}

pub open spec fn opt_to_seq(o: Option<Seq<u8>>) -> Seq<Seq<u8>> {
    match o {
        Some(n) => seq![n],
        None => Seq::empty(),
    }
}

/// Referent names carried by a sequence of volumes, in order.
pub open spec fn volume_refs(vs: Seq<Volume>, kind: RefKind) -> Seq<Seq<u8>>
    decreases vs.len(),
{
    if vs.len() == 0 {
        Seq::empty()
    } else {
        opt_to_seq(volume_ref(vs[0], kind)) + volume_refs(vs.drop_first(), kind)
    }
}

/// Referent names carried by a container's environment variables, in order.
pub open spec fn env_refs(es: Seq<EnvVar>, kind: RefKind) -> Seq<Seq<u8>>
    decreases es.len(),
{
    if es.len() == 0 {
        Seq::empty()
    } else {
        opt_to_seq(env_var_ref(es[0], kind)) + env_refs(es.drop_first(), kind)
    }
}

/// Referent names carried by a container's `envFrom` sources, in order.
pub open spec fn env_from_refs(es: Seq<EnvFromSource>, kind: RefKind) -> Seq<Seq<u8>>
    decreases es.len(),
{
    if es.len() == 0 {
        Seq::empty()
    } else {
        opt_to_seq(env_from_ref(es[0], kind)) + env_from_refs(es.drop_first(), kind)
    }
}

/// Environment-variable referents of each container, concatenated.
pub open spec fn containers_env_refs(cs: Seq<Container>, kind: RefKind) -> Seq<Seq<u8>>
    decreases cs.len(),
{
    if cs.len() == 0 {
        Seq::empty()
    } else {
        env_refs(cs[0].env@, kind) + containers_env_refs(cs.drop_first(), kind)
    }
}

/// `envFrom` referents of each container, concatenated.
pub open spec fn containers_env_from_refs(cs: Seq<Container>, kind: RefKind) -> Seq<Seq<u8>>
    decreases cs.len(),
{
    if cs.len() == 0 {
        Seq::empty()
    } else {
        env_from_refs(cs[0].env_from@, kind) + containers_env_from_refs(cs.drop_first(), kind)
    }
}

/// Every referent name of `kind` the Pod spec mentions: volume references
/// first, then per-container environment references, then per-container
/// `envFrom` references, regular containers before init containers.
pub open spec fn pod_refs(p: &PodSpec, kind: RefKind) -> Seq<Seq<u8>> {
    volume_refs(p.volumes@, kind) + containers_env_refs(
        p.containers@ + p.init_containers@,
        kind,
    ) + containers_env_from_refs(p.containers@ + p.init_containers@, kind)
}

proof fn lemma_volume_refs_concat(a: Seq<Volume>, b: Seq<Volume>, kind: RefKind)
    ensures
        volume_refs(a + b, kind) == volume_refs(a, kind) + volume_refs(b, kind),
    decreases a.len(),
{
    if a.len() == 0 {
        assert(a + b =~= b);
        assert(volume_refs(a, kind) + volume_refs(b, kind) =~= volume_refs(b, kind));
    } else {
        assert((a + b).drop_first() =~= a.drop_first() + b);
        lemma_volume_refs_concat(a.drop_first(), b, kind);
        assert((a + b)[0] == a[0]);
        assert(opt_to_seq(volume_ref(a[0], kind)) + (volume_refs(a.drop_first(), kind)
            + volume_refs(b, kind)) =~= volume_refs(a, kind) + volume_refs(b, kind));
    }
}

proof fn lemma_env_refs_concat(a: Seq<EnvVar>, b: Seq<EnvVar>, kind: RefKind)
    ensures
        env_refs(a + b, kind) == env_refs(a, kind) + env_refs(b, kind),
    decreases a.len(),
{
    if a.len() == 0 {
        assert(a + b =~= b);
        assert(env_refs(a, kind) + env_refs(b, kind) =~= env_refs(b, kind));
    } else {
        assert((a + b).drop_first() =~= a.drop_first() + b);
        lemma_env_refs_concat(a.drop_first(), b, kind);
        assert((a + b)[0] == a[0]);
        assert(opt_to_seq(env_var_ref(a[0], kind)) + (env_refs(a.drop_first(), kind) + env_refs(
            b,
            kind,
        )) =~= env_refs(a, kind) + env_refs(b, kind));
    }
}

proof fn lemma_env_from_refs_concat(a: Seq<EnvFromSource>, b: Seq<EnvFromSource>, kind: RefKind)
    ensures
        env_from_refs(a + b, kind) == env_from_refs(a, kind) + env_from_refs(b, kind),
    decreases a.len(),
{
    if a.len() == 0 {
        assert(a + b =~= b);
        assert(env_from_refs(a, kind) + env_from_refs(b, kind) =~= env_from_refs(b, kind));
    } else {
        assert((a + b).drop_first() =~= a.drop_first() + b);
        lemma_env_from_refs_concat(a.drop_first(), b, kind);
        assert((a + b)[0] == a[0]);
        assert(opt_to_seq(env_from_ref(a[0], kind)) + (env_from_refs(a.drop_first(), kind)
            + env_from_refs(b, kind)) =~= env_from_refs(a, kind) + env_from_refs(b, kind));
    }
}

proof fn lemma_containers_env_refs_concat(a: Seq<Container>, b: Seq<Container>, kind: RefKind)
    ensures
        containers_env_refs(a + b, kind) == containers_env_refs(a, kind) + containers_env_refs(
            b,
            kind,
        ),
    decreases a.len(),
{
    if a.len() == 0 {
        assert(a + b =~= b);
        assert(containers_env_refs(a, kind) + containers_env_refs(b, kind)
            =~= containers_env_refs(b, kind));
    } else {
        assert((a + b).drop_first() =~= a.drop_first() + b);
        lemma_containers_env_refs_concat(a.drop_first(), b, kind);
        assert((a + b)[0] == a[0]);
        assert(env_refs(a[0].env@, kind) + (containers_env_refs(a.drop_first(), kind)
            + containers_env_refs(b, kind)) =~= containers_env_refs(a, kind)
            + containers_env_refs(b, kind));
    }
}

proof fn lemma_containers_env_from_refs_concat(a: Seq<Container>, b: Seq<Container>, kind: RefKind)
    ensures
        containers_env_from_refs(a + b, kind) == containers_env_from_refs(a, kind)
            + containers_env_from_refs(b, kind),
    decreases a.len(),
{
    if a.len() == 0 {
        assert(a + b =~= b);
        assert(containers_env_from_refs(a, kind) + containers_env_from_refs(b, kind)
            =~= containers_env_from_refs(b, kind));
    } else {
        assert((a + b).drop_first() =~= a.drop_first() + b);
        lemma_containers_env_from_refs_concat(a.drop_first(), b, kind);
        assert((a + b)[0] == a[0]);
        assert(env_from_refs(a[0].env_from@, kind) + (containers_env_from_refs(
            a.drop_first(),
            kind,
        ) + containers_env_from_refs(b, kind)) =~= containers_env_from_refs(a, kind)
            + containers_env_from_refs(b, kind));
    }
}

fn push_opt_ref(out: &mut Vec<Vec<u8>>, name: &Option<Vec<u8>>, Ghost(o): Ghost<Option<Seq<u8>>>)
    requires
        match *name {
            Some(ref n) => o == Some(n@),
            None => o is None,
        },
    ensures
        views_of(final(out)@) == views_of(old(out)@) + opt_to_seq(o),
{
    match name {
        Some(n) => {
            let c = n.clone();
            proof {
                assert(c@ == n@);
            }
            out.push(c);
            proof {
                assert(views_of(out@) =~= views_of(old(out)@) + opt_to_seq(o));
            }
        },
        None => {
            proof {
                assert(views_of(out@) =~= views_of(old(out)@) + opt_to_seq(o));
            }
        },
    }
}

fn collect_volume_refs(out: &mut Vec<Vec<u8>>, vs: &Vec<Volume>, kind: RefKind)
    ensures
        views_of(final(out)@) == views_of(old(out)@) + volume_refs(vs@, kind),
{
    let mut i: usize = 0;
    while i < vs.len()
        invariant
            0 <= i <= vs@.len(),
            views_of(out@) == views_of(old(out)@) + volume_refs(vs@.subrange(0, i as int), kind),
        decreases vs@.len() - i,
    {
        let v = &vs[i];
        let name = match kind {
            RefKind::ConfigMap => &v.config_map_name,
            RefKind::Secret => &v.secret_name,
        };
        push_opt_ref(out, name, Ghost(volume_ref(vs@[i as int], kind)));
        proof {
            assert(vs@.subrange(0, i + 1 as int) =~= vs@.subrange(0, i as int) + seq![
                vs@[i as int],
            ]);
            lemma_volume_refs_concat(vs@.subrange(0, i as int), seq![vs@[i as int]], kind);
            assert(seq![vs@[i as int]].drop_first() =~= Seq::<Volume>::empty());
            assert(seq![vs@[i as int]][0] == vs@[i as int]);
            assert(volume_refs(Seq::<Volume>::empty(), kind) == Seq::<Seq<u8>>::empty());
            assert(volume_refs(seq![vs@[i as int]], kind) =~= opt_to_seq(
                volume_ref(vs@[i as int], kind),
            ));
            assert(views_of(out@) =~= views_of(old(out)@) + volume_refs(
                vs@.subrange(0, i + 1 as int),
                kind,
            ));
        }
        i = i + 1;
    }
    proof {
        assert(vs@.subrange(0, vs@.len() as int) =~= vs@);
    }
}

fn collect_env_refs(out: &mut Vec<Vec<u8>>, es: &Vec<EnvVar>, kind: RefKind)
    ensures
        views_of(final(out)@) == views_of(old(out)@) + env_refs(es@, kind),
{
    let mut i: usize = 0;
    while i < es.len()
        invariant
            0 <= i <= es@.len(),
            views_of(out@) == views_of(old(out)@) + env_refs(es@.subrange(0, i as int), kind),
        decreases es@.len() - i,
    {
        let e = &es[i];
        let name = match kind {
            RefKind::ConfigMap => &e.config_map_key_ref_name,
            RefKind::Secret => &e.secret_key_ref_name,
        };
        push_opt_ref(out, name, Ghost(env_var_ref(es@[i as int], kind)));
        proof {
            assert(es@.subrange(0, i + 1 as int) =~= es@.subrange(0, i as int) + seq![
                es@[i as int],
            ]);
            lemma_env_refs_concat(es@.subrange(0, i as int), seq![es@[i as int]], kind);
            assert(seq![es@[i as int]].drop_first() =~= Seq::<EnvVar>::empty());
            assert(seq![es@[i as int]][0] == es@[i as int]);
            assert(env_refs(Seq::<EnvVar>::empty(), kind) == Seq::<Seq<u8>>::empty());
            assert(env_refs(seq![es@[i as int]], kind) =~= opt_to_seq(
                env_var_ref(es@[i as int], kind),
            ));
            assert(views_of(out@) =~= views_of(old(out)@) + env_refs(
                es@.subrange(0, i + 1 as int),
                kind,
            ));
        }
        i = i + 1;
    }
    proof {
        assert(es@.subrange(0, es@.len() as int) =~= es@);
    }
}

fn collect_env_from_refs(out: &mut Vec<Vec<u8>>, es: &Vec<EnvFromSource>, kind: RefKind)
    ensures
        views_of(final(out)@) == views_of(old(out)@) + env_from_refs(es@, kind),
{
    let mut i: usize = 0;
    while i < es.len()
        invariant
            0 <= i <= es@.len(),
            views_of(out@) == views_of(old(out)@) + env_from_refs(es@.subrange(0, i as int), kind),
        decreases es@.len() - i,
    {
        let e = &es[i];
        let name = match kind {
            RefKind::ConfigMap => &e.config_map_ref_name,
            RefKind::Secret => &e.secret_ref_name,
        };
        push_opt_ref(out, name, Ghost(env_from_ref(es@[i as int], kind)));
        proof {
            assert(es@.subrange(0, i + 1 as int) =~= es@.subrange(0, i as int) + seq![
                es@[i as int],
            ]);
            lemma_env_from_refs_concat(es@.subrange(0, i as int), seq![es@[i as int]], kind);
            assert(seq![es@[i as int]].drop_first() =~= Seq::<EnvFromSource>::empty());
            assert(seq![es@[i as int]][0] == es@[i as int]);
            assert(env_from_refs(Seq::<EnvFromSource>::empty(), kind) == Seq::<Seq<u8>>::empty());
            assert(env_from_refs(seq![es@[i as int]], kind) =~= opt_to_seq(
                env_from_ref(es@[i as int], kind),
            ));
            assert(views_of(out@) =~= views_of(old(out)@) + env_from_refs(
                es@.subrange(0, i + 1 as int),
                kind,
            ));
        }
        i = i + 1;
    }
    proof {
        assert(es@.subrange(0, es@.len() as int) =~= es@);
    }
}

fn collect_containers_env(out: &mut Vec<Vec<u8>>, cs: &Vec<Container>, kind: RefKind)
    ensures
        views_of(final(out)@) == views_of(old(out)@) + containers_env_refs(cs@, kind),
{
    let mut i: usize = 0;
    while i < cs.len()
        invariant
            0 <= i <= cs@.len(),
            views_of(out@) == views_of(old(out)@) + containers_env_refs(
                cs@.subrange(0, i as int),
                kind,
            ),
        decreases cs@.len() - i,
    {
        collect_env_refs(out, &cs[i].env, kind);
        proof {
            assert(cs@.subrange(0, i + 1 as int) =~= cs@.subrange(0, i as int) + seq![
                cs@[i as int],
            ]);
            lemma_containers_env_refs_concat(cs@.subrange(0, i as int), seq![cs@[i as int]], kind);
            assert(seq![cs@[i as int]].drop_first() =~= Seq::<Container>::empty());
            assert(seq![cs@[i as int]][0] == cs@[i as int]);
            assert(containers_env_refs(Seq::<Container>::empty(), kind) == Seq::<Seq<u8>>::empty());
            assert(containers_env_refs(seq![cs@[i as int]], kind) =~= env_refs(
                cs@[i as int].env@,
                kind,
            ));
            assert(views_of(out@) =~= views_of(old(out)@) + containers_env_refs(
                cs@.subrange(0, i + 1 as int),
                kind,
            ));
        }
        i = i + 1;
    }
    proof {
        assert(cs@.subrange(0, cs@.len() as int) =~= cs@);
    }
}

fn collect_containers_env_from(out: &mut Vec<Vec<u8>>, cs: &Vec<Container>, kind: RefKind)
    ensures
        views_of(final(out)@) == views_of(old(out)@) + containers_env_from_refs(cs@, kind),
{
    let mut i: usize = 0;
    while i < cs.len()
        invariant
            0 <= i <= cs@.len(),
            views_of(out@) == views_of(old(out)@) + containers_env_from_refs(
                cs@.subrange(0, i as int),
                kind,
            ),
        decreases cs@.len() - i,
    {
        collect_env_from_refs(out, &cs[i].env_from, kind);
        proof {
            assert(cs@.subrange(0, i + 1 as int) =~= cs@.subrange(0, i as int) + seq![
                cs@[i as int],
            ]);
            lemma_containers_env_from_refs_concat(
                cs@.subrange(0, i as int),
                seq![cs@[i as int]],
                kind,
            );
            assert(seq![cs@[i as int]].drop_first() =~= Seq::<Container>::empty());
            assert(seq![cs@[i as int]][0] == cs@[i as int]);
            assert(containers_env_from_refs(Seq::<Container>::empty(), kind) == Seq::<Seq<u8>>::empty());
            assert(containers_env_from_refs(seq![cs@[i as int]], kind) =~= env_from_refs(
                cs@[i as int].env_from@,
                kind,
            ));
            assert(views_of(out@) =~= views_of(old(out)@) + containers_env_from_refs(
                cs@.subrange(0, i + 1 as int),
                kind,
            ));
        }
        i = i + 1;
    }
    proof {
        assert(cs@.subrange(0, cs@.len() as int) =~= cs@);
    }
}

/// Every referent name of `kind` in the Pod spec, in traversal order.
/// Duplicates are kept; the annotation map deduplicates by key.
pub fn find_pod_refs(p: &PodSpec, kind: RefKind) -> (r: Vec<Vec<u8>>)
    ensures
        views_of(r@) == pod_refs(p, kind),
{
    let mut out: Vec<Vec<u8>> = Vec::new();
    proof {
        assert(views_of(out@) =~= Seq::<Seq<u8>>::empty());
    }
    collect_volume_refs(&mut out, &p.volumes, kind);
    let ghost all = p.containers@ + p.init_containers@;
    collect_containers_env(&mut out, &p.containers, kind);
    collect_containers_env(&mut out, &p.init_containers, kind);
    proof {
        lemma_containers_env_refs_concat(p.containers@, p.init_containers@, kind);
    }
    collect_containers_env_from(&mut out, &p.containers, kind);
    collect_containers_env_from(&mut out, &p.init_containers, kind);
    proof {
        lemma_containers_env_from_refs_concat(p.containers@, p.init_containers@, kind);
        assert(views_of(out@) =~= pod_refs(p, kind));
    }
    out
}

} // verus!
