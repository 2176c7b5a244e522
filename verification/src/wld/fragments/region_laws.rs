//! What a region's stored form and its reading have to do with each other:
//! reading a region and writing it again gives back the bytes it was read
//! from, and a well-formed region is read back from its stored form.
use vstd::prelude::*;
use crate::bytes::{le_u32, le_i32, u32_at, i32_at, i32_bits, lemma_u32_bytes, lemma_bits_i32,
    lemma_u32_field, lemma_u32_roundtrip};
use crate::wld::fragments::{FragmentRef, StringReference, lemma_fragment_ref_bytes};
use crate::wld::fragments::region::{Region, Wall, Obstacle, VisNode, VisibleList, opt_len,
    lemma_visible_lists_readable};
use crate::wld::pieces::{lemma_i32_field, lemma_ref_field, lemma_records_section, lemma_regroup};
use crate::wld::records::{records_at, records_bytes, lemma_records_bytes, lemma_records_bytes_len};
use crate::wld::var_records::{VarRecord, var_offsets, vars_fit, vars_readable, vars_read, vars_bytes,
    lemma_vars_bytes, lemma_vars_all_readable, lemma_vars_read_back};

verus! {

/// The header of a region read from `s` is stored as the first 44 bytes of
/// `s`.
#[verifier::spinoff_prover]
#[verifier::rlimit(50)]
proof fn lemma_region_header_bytes(s: Seq<u8>, f: Region)
    requires
        s.len() >= 44,
        Region::read_from(s, f),
    ensures
        f.spec_header() == s.take(44),
{
    lemma_u32_bytes(s, 0);
    lemma_u32_bytes(s, 4);
    lemma_u32_bytes(s, 8);
    lemma_u32_bytes(s, 12);
    lemma_u32_bytes(s, 16);
    lemma_u32_bytes(s, 20);
    lemma_u32_bytes(s, 24);
    lemma_u32_bytes(s, 28);
    lemma_u32_bytes(s, 32);
    lemma_u32_bytes(s, 36);
    lemma_u32_bytes(s, 40);
    lemma_bits_i32(u32_at(s, 0));
    lemma_bits_i32(u32_at(s, 8));
    lemma_fragment_ref_bytes(i32_at(s, 8));
    assert(f.spec_header() == s.subrange(0, 4) + s.subrange(4, 8) + s.subrange(8, 12) + s.subrange(12, 16)
        + s.subrange(16, 20) + s.subrange(20, 24) + s.subrange(24, 28) + s.subrange(28, 32) + s.subrange(32, 36)
        + s.subrange(36, 40) + s.subrange(40, 44));
    assert(f.spec_header() =~= s.take(44));
}

/// The lists of a region read from `s` are stored as the bytes from the end
/// of the header to the sphere, and its walls, obstacles and visible lists
/// are well formed.
#[verifier::spinoff_prover]
#[verifier::rlimit(100)]
proof fn lemma_region_lists_bytes(s: Seq<u8>, f: Region)
    requires
        Region::fits(s),
        Region::readable(s),
        Region::read_from(s, f),
    ensures
        44 <= Region::sphere_at(s) <= s.len(),
        f.spec_lists() == s.subrange(44, Region::sphere_at(s)),
        forall|i: int| 0 <= i < f.walls@.len() ==> (#[trigger] f.walls@[i]).spec_wf(0),
        forall|i: int| 0 <= i < f.obstacles@.len() ==> (#[trigger] f.obstacles@[i]).spec_wf(0),
        forall|i: int| 0 <= i < f.visible_lists@.len() ==> (#[trigger] f.visible_lists@[i]).spec_wf(u32_at(s, 4)),
{
    let flags = u32_at(s, 4);
    let n1 = u32_at(s, 12) as nat;
    let n2 = u32_at(s, 16) as nat;
    let n3 = Region::render_count(s);
    let p2: int = (44 + 12 * n1) as int;
    let p3: int = p2 + 8 * n2;
    let wa = Region::walls_at(s);
    assert(wa == p3 + 12 * n3);
    lemma_records_bytes::<(u32, u32, u32)>(s, 44, n1);
    lemma_records_bytes::<(u32, u32)>(s, p2, n2);
    lemma_records_bytes::<(u32, u32, u32)>(s, p3, n3);

    let nw = u32_at(s, 24) as nat;
    lemma_vars_all_readable::<Wall>(s, wa, nw, 0);
    lemma_vars_bytes::<Wall>(s, wa, f.walls@, 0);
    let oa = Region::obstacles_at(s);

    let no = u32_at(s, 28) as nat;
    lemma_vars_all_readable::<Obstacle>(s, oa, no, 0);
    lemma_vars_bytes::<Obstacle>(s, oa, f.obstacles@, 0);
    let na = Region::nodes_at(s);

    let nn = u32_at(s, 36) as nat;
    let la = Region::lists_at(s);
    lemma_records_bytes::<VisNode>(s, na, nn);

    let nl = u32_at(s, 40) as nat;
    lemma_visible_lists_readable(s, la, nl, flags);
    lemma_vars_all_readable::<VisibleList>(s, la, nl, flags);
    lemma_vars_bytes::<VisibleList>(s, la, f.visible_lists@, flags);
    let sa = Region::sphere_at(s);

    assert(f.spec_lists() == s.subrange(44, p2) + s.subrange(p2, p3) + s.subrange(p3, wa) + s.subrange(wa, oa)
        + s.subrange(oa, na) + s.subrange(na, la) + s.subrange(la, sa));
    assert(f.spec_lists() =~= s.subrange(44, sa));
}

/// The sphere, reverb, user data and mesh reference of a region read from
/// `s` are stored as the bytes from the sphere to the end of the region.
#[verifier::spinoff_prover]
#[verifier::rlimit(100)]
proof fn lemma_region_tail_bytes(s: Seq<u8>, f: Region)
    requires
        Region::fits(s),
        0 <= Region::sphere_at(s),
        Region::read_from(s, f),
    ensures
        f.spec_tail() == s.subrange(Region::sphere_at(s), Region::end(s)),
        f.user_data@.len() == f.user_data_size,
        f.mesh_reference matches Some(m) ==> m.wf(),
{
    let flags = u32_at(s, 4);
    let a = Region::sphere_at(s);
    let b = a + opt_len(flags, 0x01, 16);
    let c = b + opt_len(flags, 0x02, 4);
    let u = Region::user_data_at(s);
    let m = Region::mesh_at(s);
    let e = Region::end(s);
    assert(u == c + opt_len(flags, 0x04, 4));
    let sphere_bytes = match f.sphere {
        Some(q) => le_u32(q.0) + le_u32(q.1) + le_u32(q.2) + le_u32(q.3),
        None => Seq::empty(),
    };
    if flags & 0x01 == 0x01 {
        lemma_u32_bytes(s, a);
        lemma_u32_bytes(s, a + 4);
        lemma_u32_bytes(s, a + 8);
        lemma_u32_bytes(s, a + 12);
        assert(sphere_bytes =~= s.subrange(a, b));
    } else {
        assert(sphere_bytes =~= s.subrange(a, b));
    }
    let volume_bytes = match f.reverb_volume {
        Some(v) => le_u32(v),
        None => Seq::empty(),
    };
    if flags & 0x02 == 0x02 {
        lemma_u32_bytes(s, b);
    }
    assert(volume_bytes =~= s.subrange(b, c));
    let offset_bytes = match f.reverb_offset {
        Some(v) => le_i32(v),
        None => Seq::empty(),
    };
    if flags & 0x04 == 0x04 {
        lemma_u32_bytes(s, c);
        lemma_bits_i32(u32_at(s, c));
    }
    assert(offset_bytes =~= s.subrange(c, u));
    lemma_u32_bytes(s, u);
    let mesh_bytes = match f.mesh_reference {
        Some(r) => r.spec_to_bytes(),
        None => Seq::empty(),
    };
    if flags & 0x100 == 0x100 {
        lemma_u32_bytes(s, m);
        lemma_bits_i32(u32_at(s, m));
        lemma_fragment_ref_bytes(i32_at(s, m));
    }
    assert(mesh_bytes =~= s.subrange(m, e));
    assert(f.spec_tail() == sphere_bytes + volume_bytes + offset_bytes + le_u32(f.user_data_size) + f.user_data@
        + mesh_bytes);
    assert(f.spec_tail() =~= s.subrange(a, e));
}

/// A region read from `s` is well formed, and writing it gives back the
/// bytes it was read from (the padding after it aside).
#[verifier::spinoff_prover]
#[verifier::rlimit(100)]
pub proof fn lemma_region_bytes(s: Seq<u8>, f: Region)
    requires
        Region::fits(s),
        Region::readable(s),
        Region::read_from(s, f),
    ensures
        f.wf(),
        f.spec_body() == s.take(Region::end(s)),
{
    lemma_region_header_bytes(s, f);
    lemma_region_lists_bytes(s, f);
    lemma_region_tail_bytes(s, f);
    lemma_fragment_ref_bytes(i32_at(s, 8));
    let sa = Region::sphere_at(s);
    let e = Region::end(s);
    assert(s.take(44) + s.subrange(44, sa) + s.subrange(sa, e) =~= s.take(e));
}

/// The header of a well-formed region is read back from its stored form,
/// whatever follows it.
#[verifier::spinoff_prover]
#[verifier::rlimit(50)]
proof fn lemma_region_header_read(f: Region, rest: Seq<u8>)
    requires
        f.ambient_light.wf(),
    ensures
        ({
            let s = f.spec_header() + rest;
            &&& f.spec_header().len() == 44
            &&& StringReference(i32_at(s, 0)) == f.name_reference
            &&& u32_at(s, 4) == f.flags.0
            &&& FragmentRef::spec_new(i32_at(s, 8)) == f.ambient_light
            &&& u32_at(s, 12) == f.num_region_vertex
            &&& u32_at(s, 16) == f.num_proximal_regions
            &&& u32_at(s, 20) == f.num_render_vertices
            &&& u32_at(s, 24) == f.num_walls
            &&& u32_at(s, 28) == f.num_obstacles
            &&& u32_at(s, 32) == f.num_cutting_obstacles
            &&& u32_at(s, 36) == f.num_vis_node
            &&& u32_at(s, 40) == f.num_vis_list
        }),
{
    let s = f.spec_header() + rest;
    let a = f.ambient_light.spec_to_bytes();
    lemma_fragment_ref_bytes(0);
    assert(a.len() == 4);
    lemma_u32_roundtrip(i32_bits(f.name_reference.0));
    assert(s.subrange(0, 4) =~= le_i32(f.name_reference.0));
    lemma_i32_field(s, 0, f.name_reference.0);
    lemma_u32_roundtrip(f.flags.0);
    assert(s.subrange(4, 8) =~= le_u32(f.flags.0));
    lemma_u32_field(s, 4, f.flags.0);
    assert(s.subrange(8, 12) =~= a);
    lemma_ref_field(s, 8, f.ambient_light);
    lemma_u32_roundtrip(f.num_region_vertex);
    assert(s.subrange(12, 16) =~= le_u32(f.num_region_vertex));
    lemma_u32_field(s, 12, f.num_region_vertex);
    lemma_u32_roundtrip(f.num_proximal_regions);
    assert(s.subrange(16, 20) =~= le_u32(f.num_proximal_regions));
    lemma_u32_field(s, 16, f.num_proximal_regions);
    lemma_u32_roundtrip(f.num_render_vertices);
    assert(s.subrange(20, 24) =~= le_u32(f.num_render_vertices));
    lemma_u32_field(s, 20, f.num_render_vertices);
    lemma_u32_roundtrip(f.num_walls);
    assert(s.subrange(24, 28) =~= le_u32(f.num_walls));
    lemma_u32_field(s, 24, f.num_walls);
    lemma_u32_roundtrip(f.num_obstacles);
    assert(s.subrange(28, 32) =~= le_u32(f.num_obstacles));
    lemma_u32_field(s, 28, f.num_obstacles);
    lemma_u32_roundtrip(f.num_cutting_obstacles);
    assert(s.subrange(32, 36) =~= le_u32(f.num_cutting_obstacles));
    lemma_u32_field(s, 32, f.num_cutting_obstacles);
    lemma_u32_roundtrip(f.num_vis_node);
    assert(s.subrange(36, 40) =~= le_u32(f.num_vis_node));
    lemma_u32_field(s, 36, f.num_vis_node);
    lemma_u32_roundtrip(f.num_vis_list);
    assert(s.subrange(40, 44) =~= le_u32(f.num_vis_list));
    lemma_u32_field(s, 40, f.num_vis_list);
}

/// Nine pieces written one after another, grouped to the right.
proof fn lemma_split(pre: Seq<u8>, a: Seq<u8>, b: Seq<u8>, c: Seq<u8>, d: Seq<u8>, e: Seq<u8>, g: Seq<u8>,
    h: Seq<u8>, rest: Seq<u8>)
    ensures
        pre + (a + b + c + d + e + g + h) + rest == pre + a + (b + (c + (d + (e + (g + (h + rest)))))),
{
    assert(pre + (a + b + c + d + e + g + h) + rest =~= pre + a + (b + (c + (d + (e + (g + (h + rest)))))));
}

/// Records of varying size between `p` and `q` are read back.
proof fn lemma_vars_section<T: VarRecord>(s: Seq<u8>, p: Seq<u8>, v: Seq<T>, ctx: u32, q: Seq<u8>)
    requires
        s == p + vars_bytes(v) + q,
        forall|i: int| 0 <= i < v.len() ==> (#[trigger] v[i]).spec_wf(ctx),
    ensures
        var_offsets::<T>(s, p.len() as int, v.len(), ctx).last() == p.len() + vars_bytes(v).len(),
        vars_fit::<T>(s, p.len() as int, v.len(), ctx),
        vars_readable::<T>(s, p.len() as int, v.len(), ctx),
        vars_read::<T>(s, p.len() as int, ctx, v),
{
    lemma_vars_read_back::<T>(p, v, ctx, q);
}

/// The lists of a well-formed region are read back from their stored form,
/// whatever stands before and after it.
#[verifier::spinoff_prover]
#[verifier::rlimit(100)]
proof fn lemma_region_lists_read(f: Region, pre: Seq<u8>, rest: Seq<u8>)
    requires
        f.wf(),
    ensures
        ({
            let s = pre + f.spec_lists() + rest;
            let p = pre.len() as int;
            let p2 = p + 12 * f.num_region_vertex;
            let p3 = p2 + 8 * f.num_proximal_regions;
            let wa = p3 + 12 * f.render_vertices@.len();
            let oa = wa + vars_bytes(f.walls@).len();
            let na = oa + vars_bytes(f.obstacles@).len();
            let la = na + 28 * f.num_vis_node;
            let flags = f.flags.0;
            &&& records_at::<(u32, u32, u32)>(s, p, f.num_region_vertex as nat) == f.region_vertices@
            &&& records_at::<(u32, u32)>(s, p2, f.num_proximal_regions as nat) == f.proximal_regions@
            &&& records_at::<(u32, u32, u32)>(s, p3, f.render_vertices@.len()) == f.render_vertices@
            &&& var_offsets::<Wall>(s, wa, f.num_walls as nat, 0).last() == oa
            &&& vars_fit::<Wall>(s, wa, f.num_walls as nat, 0)
            &&& vars_readable::<Wall>(s, wa, f.num_walls as nat, 0)
            &&& vars_read::<Wall>(s, wa, 0, f.walls@)
            &&& var_offsets::<Obstacle>(s, oa, f.num_obstacles as nat, 0).last() == na
            &&& vars_fit::<Obstacle>(s, oa, f.num_obstacles as nat, 0)
            &&& vars_readable::<Obstacle>(s, oa, f.num_obstacles as nat, 0)
            &&& vars_read::<Obstacle>(s, oa, 0, f.obstacles@)
            &&& records_at::<VisNode>(s, na, f.num_vis_node as nat) == f.vis_nodes@
            &&& var_offsets::<VisibleList>(s, la, f.num_vis_list as nat, flags).last() == p + f.spec_lists().len()
            &&& vars_fit::<VisibleList>(s, la, f.num_vis_list as nat, flags)
            &&& vars_read::<VisibleList>(s, la, flags, f.visible_lists@)
        }),
{
    let s = pre + f.spec_lists() + rest;
    let ra = records_bytes(f.region_vertices@);
    let rb = records_bytes(f.proximal_regions@);
    let rc = records_bytes(f.render_vertices@);
    let rw = vars_bytes(f.walls@);
    let ro = vars_bytes(f.obstacles@);
    let rn = records_bytes(f.vis_nodes@);
    let rl = vars_bytes(f.visible_lists@);
    let q6 = rl + rest;
    let q5 = rn + q6;
    let q4 = ro + q5;
    let q3 = rw + q4;
    let q2 = rc + q3;
    let q1 = rb + q2;
    lemma_split(pre, ra, rb, rc, rw, ro, rn, rl, rest);
    assert(s == pre + ra + q1);
    lemma_records_section::<(u32, u32, u32)>(s, pre, f.region_vertices@, q1);
    lemma_regroup(pre, ra, rb, q2);
    lemma_records_section::<(u32, u32)>(s, pre + ra, f.proximal_regions@, q2);
    lemma_regroup(pre + ra, rb, rc, q3);
    lemma_records_section::<(u32, u32, u32)>(s, pre + ra + rb, f.render_vertices@, q3);
    lemma_regroup(pre + ra + rb, rc, rw, q4);
    lemma_vars_section::<Wall>(s, pre + ra + rb + rc, f.walls@, 0, q4);
    lemma_regroup(pre + ra + rb + rc, rw, ro, q5);
    lemma_vars_section::<Obstacle>(s, pre + ra + rb + rc + rw, f.obstacles@, 0, q5);
    lemma_regroup(pre + ra + rb + rc + rw, ro, rn, q6);
    lemma_records_section::<VisNode>(s, pre + ra + rb + rc + rw + ro, f.vis_nodes@, q6);
    lemma_regroup(pre + ra + rb + rc + rw + ro, rn, rl, rest);
    lemma_vars_section::<VisibleList>(s, pre + ra + rb + rc + rw + ro + rn, f.visible_lists@, f.flags.0, rest);
    assert(f.spec_lists().len() == ra.len() + rb.len() + rc.len() + rw.len() + ro.len() + rn.len() + rl.len());
}
/// Six pieces written one after another, grouped to the right.
proof fn lemma_split6(pre: Seq<u8>, a: Seq<u8>, b: Seq<u8>, c: Seq<u8>, d: Seq<u8>, e: Seq<u8>, g: Seq<u8>,
    rest: Seq<u8>)
    ensures
        pre + (a + b + c + d + e + g) + rest == pre + a + (b + (c + (d + (e + (g + rest))))),
{
    assert(pre + (a + b + c + d + e + g) + rest =~= pre + a + (b + (c + (d + (e + (g + rest))))));
}

/// The piece between `p` and `q` stands where `p` ends.
proof fn lemma_piece(s: Seq<u8>, p: Seq<u8>, x: Seq<u8>, q: Seq<u8>)
    requires
        s == p + x + q,
    ensures
        s.subrange(p.len() as int, (p.len() + x.len()) as int) == x,
{
    assert(s.subrange(p.len() as int, (p.len() + x.len()) as int) =~= x);
}

/// Where each of six pieces written one after another between `pre` and
/// `rest` stands.
proof fn lemma_pieces6(s: Seq<u8>, pre: Seq<u8>, a: Seq<u8>, b: Seq<u8>, c: Seq<u8>, d: Seq<u8>, e: Seq<u8>,
    g: Seq<u8>, rest: Seq<u8>)
    requires
        s == pre + (a + b + c + d + e + g) + rest,
    ensures
        s == pre + a + (b + (c + (d + (e + (g + rest))))),
        ({
            let p0 = pre.len() as int;
            let p1 = p0 + a.len();
            let p2 = p1 + b.len();
            let p3 = p2 + c.len();
            let p4 = p3 + d.len();
            let p5 = p4 + e.len();
            &&& s.subrange(p0, p1) == a
            &&& s.subrange(p1, p2) == b
            &&& s.subrange(p2, p3) == c
            &&& s.subrange(p3, p4) == d
            &&& s.subrange(p4, p5) == e
            &&& s.subrange(p5, p5 + g.len()) == g
        }),
        (a + b + c + d + e + g).len() == a.len() + b.len() + c.len() + d.len() + e.len() + g.len(),
{
    lemma_split6(pre, a, b, c, d, e, g, rest);
    lemma_piece(s, pre, a, b + (c + (d + (e + (g + rest)))));
    lemma_regroup(pre, a, b, c + (d + (e + (g + rest))));
    lemma_piece(s, pre + a, b, c + (d + (e + (g + rest))));
    lemma_regroup(pre + a, b, c, d + (e + (g + rest)));
    lemma_piece(s, pre + a + b, c, d + (e + (g + rest)));
    lemma_regroup(pre + a + b, c, d, e + (g + rest));
    lemma_piece(s, pre + a + b + c, d, e + (g + rest));
    lemma_regroup(pre + a + b + c, d, e, g + rest);
    lemma_piece(s, pre + a + b + c + d, e, g + rest);
    lemma_regroup(pre + a + b + c + d, e, g, rest);
    lemma_piece(s, pre + a + b + c + d + e, g, rest);
}

/// Four values written one after another between `p` and `r` are read
/// back.
proof fn lemma_sphere_field(s: Seq<u8>, p: Seq<u8>, q: (u32, u32, u32, u32), r: Seq<u8>)
    requires
        s == p + (le_u32(q.0) + le_u32(q.1) + le_u32(q.2) + le_u32(q.3)) + r,
    ensures
        u32_at(s, p.len() as int) == q.0,
        u32_at(s, p.len() as int + 4) == q.1,
        u32_at(s, p.len() as int + 8) == q.2,
        u32_at(s, p.len() as int + 12) == q.3,
{
    let l0 = le_u32(q.0);
    let l1 = le_u32(q.1);
    let l2 = le_u32(q.2);
    let l3 = le_u32(q.3);
    lemma_u32_roundtrip(q.0);
    lemma_u32_roundtrip(q.1);
    lemma_u32_roundtrip(q.2);
    lemma_u32_roundtrip(q.3);
    lemma_split4(p, l0, l1, l2, l3, r);
    lemma_piece(s, p, l0, l1 + (l2 + (l3 + r)));
    lemma_regroup(p, l0, l1, l2 + (l3 + r));
    lemma_piece(s, p + l0, l1, l2 + (l3 + r));
    lemma_regroup(p + l0, l1, l2, l3 + r);
    lemma_piece(s, p + l0 + l1, l2, l3 + r);
    lemma_regroup(p + l0 + l1, l2, l3, r);
    lemma_piece(s, p + l0 + l1 + l2, l3, r);
    lemma_u32_field(s, p.len() as int, q.0);
    lemma_u32_field(s, p.len() as int + 4, q.1);
    lemma_u32_field(s, p.len() as int + 8, q.2);
    lemma_u32_field(s, p.len() as int + 12, q.3);
}

/// Four pieces written one after another, grouped to the right.
proof fn lemma_split4(pre: Seq<u8>, a: Seq<u8>, b: Seq<u8>, c: Seq<u8>, d: Seq<u8>, rest: Seq<u8>)
    ensures
        pre + (a + b + c + d) + rest == pre + a + (b + (c + (d + rest))),
{
    assert(pre + (a + b + c + d) + rest =~= pre + a + (b + (c + (d + rest))));
}

/// The stored form of an optional sphere.
#[verifier::opaque]
spec fn sphere_bytes(x: Option<(u32, u32, u32, u32)>) -> Seq<u8> {
    match x {
        Some(q) => le_u32(q.0) + le_u32(q.1) + le_u32(q.2) + le_u32(q.3),
        None => Seq::empty(),
    }
}

/// The stored form of an optional unsigned value.
#[verifier::opaque]
spec fn opt_u32_bytes(x: Option<u32>) -> Seq<u8> {
    match x {
        Some(v) => le_u32(v),
        None => Seq::empty(),
    }
}

/// The stored form of an optional signed value.
#[verifier::opaque]
spec fn opt_i32_bytes(x: Option<i32>) -> Seq<u8> {
    match x {
        Some(v) => le_i32(v),
        None => Seq::empty(),
    }
}

/// The stored form of an optional fragment reference.
#[verifier::opaque]
spec fn opt_ref_bytes(x: Option<FragmentRef>) -> Seq<u8> {
    match x {
        Some(r) => r.spec_to_bytes(),
        None => Seq::empty(),
    }
}

/// An optional sphere stored after `p` is read back.
proof fn lemma_sphere_opt_field(s: Seq<u8>, p: Seq<u8>, x: Option<(u32, u32, u32, u32)>, r: Seq<u8>)
    requires
        s == p + sphere_bytes(x) + r,
    ensures
        sphere_bytes(x).len() == if x is Some { 16int } else { 0 },
        x matches Some(q) ==> u32_at(s, p.len() as int) == q.0 && u32_at(s, p.len() as int + 4) == q.1 && u32_at(
            s,
            p.len() as int + 8,
        ) == q.2 && u32_at(s, p.len() as int + 12) == q.3,
{
    reveal(sphere_bytes);
    match x {
        Some(q) => {
            lemma_u32_roundtrip(q.0);
            lemma_u32_roundtrip(q.1);
            lemma_u32_roundtrip(q.2);
            lemma_u32_roundtrip(q.3);
            lemma_sphere_field(s, p, q, r);
        },
        None => {},
    }
}

/// An optional unsigned value stored at `p` is read back.
proof fn lemma_opt_u32_field(s: Seq<u8>, p: int, x: Option<u32>)
    requires
        0 <= p,
        p + opt_u32_bytes(x).len() <= s.len(),
        s.subrange(p, p + opt_u32_bytes(x).len()) == opt_u32_bytes(x),
    ensures
        opt_u32_bytes(x).len() == if x is Some { 4int } else { 0 },
        x matches Some(v) ==> u32_at(s, p) == v,
{
    reveal(opt_u32_bytes);
    match x {
        Some(v) => {
            lemma_u32_roundtrip(v);
            lemma_u32_field(s, p, v);
        },
        None => {},
    }
}

/// An optional signed value stored at `p` is read back.
proof fn lemma_opt_i32_field(s: Seq<u8>, p: int, x: Option<i32>)
    requires
        0 <= p,
        p + opt_i32_bytes(x).len() <= s.len(),
        s.subrange(p, p + opt_i32_bytes(x).len()) == opt_i32_bytes(x),
    ensures
        opt_i32_bytes(x).len() == if x is Some { 4int } else { 0 },
        x matches Some(v) ==> i32_at(s, p) == v,
{
    reveal(opt_i32_bytes);
    match x {
        Some(v) => {
            lemma_u32_roundtrip(i32_bits(v));
            lemma_i32_field(s, p, v);
        },
        None => {},
    }
}

/// An optional well-formed fragment reference stored at `p` is read back.
proof fn lemma_opt_ref_field(s: Seq<u8>, p: int, x: Option<FragmentRef>)
    requires
        x matches Some(r) ==> r.wf(),
        0 <= p,
        p + opt_ref_bytes(x).len() <= s.len(),
        s.subrange(p, p + opt_ref_bytes(x).len()) == opt_ref_bytes(x),
    ensures
        opt_ref_bytes(x).len() == if x is Some { 4int } else { 0 },
        x matches Some(r) ==> FragmentRef::spec_new(i32_at(s, p)) == r,
{
    reveal(opt_ref_bytes);
    lemma_fragment_ref_bytes(0);
    match x {
        Some(r) => {
            lemma_ref_field(s, p, r);
        },
        None => {},
    }
}

/// The sphere, reverb, user data and mesh reference of a well-formed region
/// are read back from their stored form, whatever stands before and after
/// it.
#[verifier::spinoff_prover]
#[verifier::rlimit(100)]
proof fn lemma_region_tail_read(f: Region, pre: Seq<u8>, rest: Seq<u8>)
    requires
        f.sphere is Some <==> f.flags.0 & 0x01 == 0x01,
        f.reverb_volume is Some <==> f.flags.0 & 0x02 == 0x02,
        f.reverb_offset is Some <==> f.flags.0 & 0x04 == 0x04,
        f.user_data@.len() == f.user_data_size,
        f.mesh_reference is Some <==> f.flags.0 & 0x100 == 0x100,
        f.mesh_reference matches Some(m) ==> m.wf(),
    ensures
        ({
            let s = pre + f.spec_tail() + rest;
            let flags = f.flags.0;
            let a = pre.len() as int;
            let b = a + opt_len(flags, 0x01, 16);
            let c = b + opt_len(flags, 0x02, 4);
            let u = c + opt_len(flags, 0x04, 4);
            let m = u + 4 + f.user_data_size;
            &&& f.spec_tail().len() == m + opt_len(flags, 0x100, 4) - a
            &&& f.sphere == if flags & 0x01 == 0x01 {
                Some((u32_at(s, a), u32_at(s, a + 4), u32_at(s, a + 8), u32_at(s, a + 12)))
            } else {
                None
            }
            &&& f.reverb_volume == if flags & 0x02 == 0x02 {
                Some(u32_at(s, b))
            } else {
                None
            }
            &&& f.reverb_offset == if flags & 0x04 == 0x04 {
                Some(i32_at(s, c))
            } else {
                None
            }
            &&& u32_at(s, u) == f.user_data_size
            &&& f.user_data@ == s.subrange(u + 4, m)
            &&& f.mesh_reference == if flags & 0x100 == 0x100 {
                Some(FragmentRef::spec_new(i32_at(s, m)))
            } else {
                None
            }
        }),
{
    let s = pre + f.spec_tail() + rest;
    let sp = sphere_bytes(f.sphere);
    let vo = opt_u32_bytes(f.reverb_volume);
    let of = opt_i32_bytes(f.reverb_offset);
    let us = le_u32(f.user_data_size);
    let ud = f.user_data@;
    let me = opt_ref_bytes(f.mesh_reference);
    lemma_u32_roundtrip(f.user_data_size);
    assert(f.spec_tail() == sp + vo + of + us + ud + me) by {
        reveal(sphere_bytes);
        reveal(opt_u32_bytes);
        reveal(opt_i32_bytes);
        reveal(opt_ref_bytes);
    }
    let a = pre.len() as int;
    lemma_pieces6(s, pre, sp, vo, of, us, ud, me, rest);
    lemma_sphere_opt_field(s, pre, f.sphere, vo + (of + (us + (ud + (me + rest)))));
    let b = a + sp.len();
    lemma_opt_u32_field(s, b, f.reverb_volume);
    let c = b + vo.len();
    lemma_opt_i32_field(s, c, f.reverb_offset);
    let u = c + of.len();
    lemma_u32_field(s, u, f.user_data_size);
    let m = u + 4 + ud.len();
    lemma_opt_ref_field(s, m, f.mesh_reference);
}

/// The header fields that the layout of a region depends on, as stored at
/// the start of `s`.
spec fn header_holds(s: Seq<u8>, f: Region) -> bool {
    &&& u32_at(s, 4) == f.flags.0
    &&& u32_at(s, 12) == f.num_region_vertex
    &&& u32_at(s, 16) == f.num_proximal_regions
    &&& u32_at(s, 20) == f.num_render_vertices
    &&& u32_at(s, 24) == f.num_walls
    &&& u32_at(s, 28) == f.num_obstacles
    &&& u32_at(s, 36) == f.num_vis_node
    &&& u32_at(s, 40) == f.num_vis_list
}

/// The first lists of a well-formed region, stored after its header, are
/// read back from where the layout of the region puts them.
#[verifier::spinoff_prover]
#[verifier::rlimit(100)]
proof fn lemma_region_records_in(s: Seq<u8>, h: Seq<u8>, f: Region, rest: Seq<u8>)
    requires
        f.wf(),
        h.len() == 44,
        s == h + f.spec_lists() + rest,
        header_holds(s, f),
    ensures
        f.region_vertices@ == records_at::<(u32, u32, u32)>(s, 44, u32_at(s, 12) as nat),
        f.proximal_regions@ == records_at::<(u32, u32)>(s, 44 + 12 * u32_at(s, 12), u32_at(s, 16) as nat),
        f.render_vertices@ == records_at::<(u32, u32, u32)>(
            s,
            44 + 12 * u32_at(s, 12) + 8 * u32_at(s, 16),
            Region::render_count(s),
        ),
        Region::walls_at(s) == 44 + 12 * f.num_region_vertex + 8 * f.num_proximal_regions + 12
            * f.render_vertices@.len(),
{
    lemma_region_lists_read(f, h, rest);
    assert(Region::render_count(s) == f.render_vertices@.len());
}

/// The walls and obstacles of a well-formed region, stored after its header,
/// are read back from where the layout of the region puts them.
#[verifier::spinoff_prover]
#[verifier::rlimit(100)]
proof fn lemma_region_walls_in(s: Seq<u8>, h: Seq<u8>, f: Region, rest: Seq<u8>)
    requires
        f.wf(),
        h.len() == 44,
        s == h + f.spec_lists() + rest,
        header_holds(s, f),
        Region::walls_at(s) == 44 + 12 * f.num_region_vertex + 8 * f.num_proximal_regions + 12
            * f.render_vertices@.len(),
    ensures
        s.len() >= Region::walls_at(s),
        vars_fit::<Wall>(s, Region::walls_at(s), u32_at(s, 24) as nat, 0),
        vars_readable::<Wall>(s, Region::walls_at(s), u32_at(s, 24) as nat, 0),
        vars_read::<Wall>(s, Region::walls_at(s), 0, f.walls@),
        vars_fit::<Obstacle>(s, Region::obstacles_at(s), u32_at(s, 28) as nat, 0),
        vars_readable::<Obstacle>(s, Region::obstacles_at(s), u32_at(s, 28) as nat, 0),
        vars_read::<Obstacle>(s, Region::obstacles_at(s), 0, f.obstacles@),
        Region::nodes_at(s) == Region::walls_at(s) + vars_bytes(f.walls@).len() + vars_bytes(f.obstacles@).len(),
{
    let ra = records_bytes(f.region_vertices@);
    let rb = records_bytes(f.proximal_regions@);
    let rc = records_bytes(f.render_vertices@);
    let rw = vars_bytes(f.walls@);
    let ro = vars_bytes(f.obstacles@);
    let rn = records_bytes(f.vis_nodes@);
    let rl = vars_bytes(f.visible_lists@);
    lemma_records_bytes_len(f.region_vertices@);
    lemma_records_bytes_len(f.proximal_regions@);
    lemma_records_bytes_len(f.render_vertices@);
    assert(f.spec_lists() == ra + rb + rc + rw + ro + rn + rl);
    lemma_split(h, ra, rb, rc, rw, ro, rn, rl, rest);
    lemma_regroup(h, ra, rb, rc + (rw + (ro + (rn + (rl + rest)))));
    lemma_regroup(h + ra, rb, rc, rw + (ro + (rn + (rl + rest))));
    lemma_regroup(h + ra + rb, rc, rw, ro + (rn + (rl + rest)));
    lemma_vars_section::<Wall>(s, h + ra + rb + rc, f.walls@, 0, ro + (rn + (rl + rest)));
    lemma_regroup(h + ra + rb + rc, rw, ro, rn + (rl + rest));
    lemma_vars_section::<Obstacle>(s, h + ra + rb + rc + rw, f.obstacles@, 0, rn + (rl + rest));
}

/// The visibility nodes and visible lists of a well-formed region, stored
/// after its header, are read back from where the layout of the region puts
/// them, and the sphere follows them.
#[verifier::spinoff_prover]
#[verifier::rlimit(100)]
proof fn lemma_region_nodes_in(s: Seq<u8>, h: Seq<u8>, f: Region, rest: Seq<u8>)
    requires
        f.wf(),
        h.len() == 44,
        s == h + f.spec_lists() + rest,
        header_holds(s, f),
        Region::nodes_at(s) == 44 + 12 * f.num_region_vertex + 8 * f.num_proximal_regions + 12
            * f.render_vertices@.len() + vars_bytes(f.walls@).len() + vars_bytes(f.obstacles@).len(),
    ensures
        f.vis_nodes@ == records_at::<VisNode>(s, Region::nodes_at(s), u32_at(s, 36) as nat),
        s.len() >= Region::lists_at(s),
        vars_fit::<VisibleList>(s, Region::lists_at(s), u32_at(s, 40) as nat, u32_at(s, 4)),
        vars_read::<VisibleList>(s, Region::lists_at(s), u32_at(s, 4), f.visible_lists@),
        Region::sphere_at(s) == 44 + f.spec_lists().len(),
{
    let ra = records_bytes(f.region_vertices@);
    let rb = records_bytes(f.proximal_regions@);
    let rc = records_bytes(f.render_vertices@);
    let rw = vars_bytes(f.walls@);
    let ro = vars_bytes(f.obstacles@);
    let rn = records_bytes(f.vis_nodes@);
    let rl = vars_bytes(f.visible_lists@);
    lemma_records_bytes_len(f.region_vertices@);
    lemma_records_bytes_len(f.proximal_regions@);
    lemma_records_bytes_len(f.render_vertices@);
    assert(f.spec_lists() == ra + rb + rc + rw + ro + rn + rl);
    lemma_split(h, ra, rb, rc, rw, ro, rn, rl, rest);
    lemma_regroup(h, ra, rb, rc + (rw + (ro + (rn + (rl + rest)))));
    lemma_regroup(h + ra, rb, rc, rw + (ro + (rn + (rl + rest))));
    lemma_regroup(h + ra + rb, rc, rw, ro + (rn + (rl + rest)));
    lemma_regroup(h + ra + rb + rc, rw, ro, rn + (rl + rest));
    lemma_regroup(h + ra + rb + rc + rw, ro, rn, rl + rest);
    lemma_records_section::<VisNode>(s, h + ra + rb + rc + rw + ro, f.vis_nodes@, rl + rest);
    lemma_regroup(h + ra + rb + rc + rw + ro, rn, rl, rest);
    lemma_vars_section::<VisibleList>(s, h + ra + rb + rc + rw + ro + rn, f.visible_lists@, f.flags.0, rest);
}

/// The sphere, reverb, user data and mesh reference of a well-formed region,
/// stored where the layout of the region puts them, are read back from
/// there, and the region ends after them.
#[verifier::spinoff_prover]
#[verifier::rlimit(100)]
proof fn lemma_region_tail_in(s: Seq<u8>, pl: Seq<u8>, f: Region, tail: Seq<u8>)
    requires
        f.wf(),
        s == pl + f.spec_tail() + tail,
        Region::sphere_at(s) == pl.len(),
        u32_at(s, 4) == f.flags.0,
    ensures
        s.len() >= Region::user_data_at(s) + 4,
        s.len() >= Region::end(s),
        Region::end(s) == pl.len() + f.spec_tail().len(),
        f.sphere == if u32_at(s, 4) & 0x01 == 0x01 {
            let p = Region::sphere_at(s);
            Some((u32_at(s, p), u32_at(s, p + 4), u32_at(s, p + 8), u32_at(s, p + 12)))
        } else {
            None
        },
        f.reverb_volume == if u32_at(s, 4) & 0x02 == 0x02 {
            Some(u32_at(s, Region::sphere_at(s) + opt_len(u32_at(s, 4), 0x01, 16)))
        } else {
            None
        },
        f.reverb_offset == if u32_at(s, 4) & 0x04 == 0x04 {
            Some(
                i32_at(s, Region::sphere_at(s) + opt_len(u32_at(s, 4), 0x01, 16) + opt_len(u32_at(s, 4), 0x02, 4)),
            )
        } else {
            None
        },
        f.user_data_size == u32_at(s, Region::user_data_at(s)),
        f.user_data@ == s.subrange(Region::user_data_at(s) + 4, Region::mesh_at(s)),
        f.mesh_reference == if u32_at(s, 4) & 0x100 == 0x100 {
            Some(FragmentRef::spec_new(i32_at(s, Region::mesh_at(s))))
        } else {
            None
        },
{
    lemma_region_tail_read(f, pl, tail);
}

/// Four pieces written one after another, grouped in the ways the readers
/// of their parts need.
proof fn lemma_assoc4(h: Seq<u8>, l: Seq<u8>, t: Seq<u8>, tail: Seq<u8>)
    ensures
        h + l + t + tail == h + (l + t + tail),
        h + l + t + tail == h + l + (t + tail),
{
    assert(h + l + t + tail =~= h + (l + t + tail));
    assert(h + l + t + tail =~= h + l + (t + tail));
}

/// A well-formed region is read back from its stored form, whatever follows
/// it: the bytes hold all of it, each of its parts can be read, reading gives
/// the region, and the region ends where its stored form (before padding)
/// ends.
#[verifier::spinoff_prover]
#[verifier::rlimit(100)]
pub proof fn lemma_region_round_trip(f: Region, tail: Seq<u8>)
    requires
        f.wf(),
    ensures
        ({
            let s = f.spec_body() + tail;
            &&& Region::fits(s)
            &&& Region::readable(s)
            &&& Region::read_from(s, f)
            &&& Region::end(s) == f.spec_body().len()
        }),
{
    let h = f.spec_header();
    let l = f.spec_lists();
    let t = f.spec_tail();
    let s = f.spec_body() + tail;
    lemma_assoc4(h, l, t, tail);
    lemma_region_header_read(f, l + t + tail);
    lemma_region_records_in(s, h, f, t + tail);
    lemma_region_walls_in(s, h, f, t + tail);
    lemma_region_nodes_in(s, h, f, t + tail);
    lemma_region_tail_in(s, h + l, f, tail);
}

} // verus!
