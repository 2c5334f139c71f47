//! How a gadget list is written down in the configuration grammar, and the
//! round trip: parsing the rendering of any well-formed gadget list yields
//! exactly that list, with as many records as were written, in file order.

use vstd::prelude::*;

use crate::gadget::{GadgetV, IconV, ImageInfoV};
use crate::parse::{
    spec_empty_partial, spec_field, spec_finish, spec_head, spec_indented, spec_lines, spec_parse,
    spec_run, spec_step, ParseError, PartialV, StateV,
};

verus! {

/// No newline among the characters.
pub open spec fn no_nl(s: Seq<char>) -> bool {
    forall|i: int| 0 <= i < s.len() ==> s[i] != '\n'
}

/// A gadget the grammar can write down: name and path non-empty, and no
/// embedded string carrying a newline.
pub open spec fn spec_renderable(g: GadgetV) -> bool {
    match g {
        GadgetV::MassStorage(img) => img.name.len() > 0 && img.path.len() > 0 && no_nl(img.name)
            && no_nl(img.path) && (match img.icon {
            IconV::File(p) => no_nl(p),
            IconV::Resource(n) => no_nl(n),
        }),
        GadgetV::Serial => true,
        GadgetV::Ethernet => true,
    }
}

/// A boolean field value as written.
pub open spec fn spec_render_bool(b: bool) -> Seq<char> {
    if b {
        "true"@
    } else {
        "false"@
    }
}

/// An icon field value as written.
pub open spec fn spec_render_icon(ic: IconV) -> Seq<char> {
    match ic {
        IconV::File(p) => "File("@ + p + ")"@,
        IconV::Resource(n) => "Resource("@ + n + ")"@,
    }
}

/// The lines one gadget writes; a mass-storage image writes all its fields.
pub open spec fn spec_render_gadget(g: GadgetV) -> Seq<Seq<char>> {
    match g {
        GadgetV::Serial => seq!["Serial: {}"@],
        GadgetV::Ethernet => seq!["Ethernet: {}"@],
        GadgetV::MassStorage(img) => seq![
            "MassStorage:"@,
            "  name: "@ + img.name,
            "  path: "@ + img.path,
            "  icon: "@ + spec_render_icon(img.icon),
            "  read_only: "@ + spec_render_bool(img.read_only),
            "  as_cdrom: "@ + spec_render_bool(img.as_cdrom),
        ],
    }
}

/// The lines of a whole gadget list, in order.
pub open spec fn spec_render_lines(gs: Seq<GadgetV>) -> Seq<Seq<char>>
    decreases gs.len(),
{
    if gs.len() == 0 {
        Seq::<Seq<char>>::empty()
    } else {
        spec_render_gadget(gs[0]) + spec_render_lines(gs.skip(1))
    }
}

/// Lines joined by single newlines, without a trailing newline.
pub open spec fn spec_join_nl(ls: Seq<Seq<char>>) -> Seq<char>
    decreases ls.len(),
{
    if ls.len() == 0 {
        Seq::<char>::empty()
    } else if ls.len() == 1 {
        ls[0]
    } else {
        ls[0] + seq!['\n'] + spec_join_nl(ls.skip(1))
    }
}

/// The configuration text of a gadget list.
pub open spec fn spec_render_text(gs: Seq<GadgetV>) -> Seq<char> {
    spec_join_nl(spec_render_lines(gs))
}

// ---------------------------------------------------------------------------
// Splitting undoes joining.
// ---------------------------------------------------------------------------

proof fn lemma_lines_single(s: Seq<char>)
    requires
        no_nl(s),
    ensures
        spec_lines(s) == seq![s],
    decreases s.len(),
{
    if s.len() == 0 {
        assert(s =~= Seq::<char>::empty());
        assert(spec_lines(s) =~= seq![s]);
    } else {
        assert(no_nl(s.skip(1)));
        lemma_lines_single(s.skip(1));
        assert(seq![s[0]] + s.skip(1) =~= s);
        assert(seq![s.skip(1)].skip(1) =~= Seq::<Seq<char>>::empty());
        assert(spec_lines(s) =~= seq![s]);
    }
}

proof fn lemma_lines_concat(a: Seq<char>, t: Seq<char>)
    requires
        no_nl(a),
    ensures
        spec_lines(a + seq!['\n'] + t) == seq![a] + spec_lines(t),
    decreases a.len(),
{
    let s = a + seq!['\n'] + t;
    if a.len() == 0 {
        assert(s[0] == '\n');
        assert(s.skip(1) =~= t);
        assert(a =~= Seq::<char>::empty());
        assert(spec_lines(s) =~= seq![a] + spec_lines(t));
    } else {
        assert(s[0] == a[0]);
        assert(s[0] != '\n');
        assert(s.skip(1) =~= a.skip(1) + seq!['\n'] + t);
        assert(no_nl(a.skip(1)));
        lemma_lines_concat(a.skip(1), t);
        let rest = spec_lines(s.skip(1));
        assert(rest == seq![a.skip(1)] + spec_lines(t));
        assert(rest[0] == a.skip(1));
        assert(seq![s[0]] + rest[0] =~= a);
        assert(rest.skip(1) =~= spec_lines(t));
        assert(spec_lines(s) =~= seq![a] + spec_lines(t));
    }
}

// ---------------------------------------------------------------------------
// The parser accepts every rendered line.
// ---------------------------------------------------------------------------

proof fn lemma_not_prefix_diff0(p: Seq<char>, s: Seq<char>)
    requires
        p.len() > 0,
        s.len() > 0,
        p[0] != s[0],
    ensures
        !p.is_prefix_of(s),
{
    if p.is_prefix_of(s) {
        assert(s.subrange(0, p.len() as int)[0] == s[0]);
    }
}

/// The fields gathered after the first `n` field lines of an image's block.
spec fn spec_mass_partial(img: ImageInfoV, n: int) -> PartialV {
    PartialV {
        name: if n >= 1 {
            Some(img.name)
        } else {
            None
        },
        path: if n >= 2 {
            Some(img.path)
        } else {
            None
        },
        icon: if n >= 3 {
            Some(img.icon)
        } else {
            None
        },
        read_only: if n >= 4 {
            Some(img.read_only)
        } else {
            None
        },
        as_cdrom: if n >= 5 {
            Some(img.as_cdrom)
        } else {
            None
        },
    }
}

#[verifier::rlimit(100)]
proof fn lemma_mass_field_step(img: ImageInfoV, j: int)
    requires
        spec_renderable(GadgetV::MassStorage(img)),
        0 <= j < 5,
    ensures
        spec_step(
            StateV::InMass(spec_mass_partial(img, j)),
            spec_render_gadget(GadgetV::MassStorage(img))[j + 1],
        ) == Ok::<(StateV, Seq<GadgetV>), ParseError>(
            (StateV::InMass(spec_mass_partial(img, j + 1)), Seq::<GadgetV>::empty()),
        ),
{
    let p = spec_mass_partial(img, j);
    let l = spec_render_gadget(GadgetV::MassStorage(img))[j + 1];
    reveal_strlit("  name: ");
    reveal_strlit("  path: ");
    reveal_strlit("  icon: ");
    reveal_strlit("  read_only: ");
    reveal_strlit("  as_cdrom: ");
    reveal_strlit("name: ");
    reveal_strlit("path: ");
    reveal_strlit("icon: ");
    reveal_strlit("read_only: ");
    reveal_strlit("as_cdrom: ");
    assert("name: "@.len() == 6);
    assert("path: "@.len() == 6);
    assert("icon: "@.len() == 6);
    assert("read_only: "@.len() == 11);
    assert("as_cdrom: "@.len() == 10);
    if j == 0 {
        assert(l == "  name: "@ + img.name);
        assert(l[0] == ' ' && l[1] == ' ');
        let r = l.skip(2);
        assert(r =~= "name: "@ + img.name);
        assert("name: "@ =~= r.subrange(0, 6));
        assert(r.skip(6) =~= img.name);
        assert(spec_field(p, r) == Ok::<PartialV, ParseError>(spec_mass_partial(img, 1)));
    } else if j == 1 {
        assert(l == "  path: "@ + img.path);
        assert(l[0] == ' ' && l[1] == ' ');
        let r = l.skip(2);
        assert(r =~= "path: "@ + img.path);
        lemma_not_prefix_diff0("name: "@, r);
        assert("path: "@ =~= r.subrange(0, 6));
        assert(r.skip(6) =~= img.path);
        assert(spec_field(p, r) == Ok::<PartialV, ParseError>(spec_mass_partial(img, 2)));
    } else if j == 2 {
        let iv = spec_render_icon(img.icon);
        assert(l == "  icon: "@ + iv);
        assert(l[0] == ' ' && l[1] == ' ');
        reveal_strlit("File(");
        reveal_strlit("Resource(");
        reveal_strlit(")");
        assert("File("@.len() == 5);
        assert("Resource("@.len() == 9);
        assert(")"@.len() == 1);
        let r = l.skip(2);
        assert(r =~= "icon: "@ + iv);
        lemma_not_prefix_diff0("name: "@, r);
        lemma_not_prefix_diff0("path: "@, r);
        assert("icon: "@ =~= r.subrange(0, 6));
        let v = r.skip(6);
        assert(v =~= iv);
        match img.icon {
            IconV::File(pp) => {
                assert(v =~= ("File("@ + pp) + ")"@);
                assert(v.len() == 6 + pp.len());
                assert(v.last() == ')');
                assert("File("@ =~= v.subrange(0, 5));
                assert(v.subrange(5, v.len() - 1) =~= pp);
                assert(crate::parse::spec_icon_value(v) == Some(IconV::File(pp)));
            },
            IconV::Resource(nn) => {
                assert(v =~= ("Resource("@ + nn) + ")"@);
                assert(v.len() == 10 + nn.len());
                assert(v.last() == ')');
                lemma_not_prefix_diff0("File("@, v);
                assert("Resource("@ =~= v.subrange(0, 9));
                assert(v.subrange(9, v.len() - 1) =~= nn);
                assert(crate::parse::spec_icon_value(v) == Some(IconV::Resource(nn)));
            },
        }
        assert(spec_field(p, r) == Ok::<PartialV, ParseError>(spec_mass_partial(img, 3)));
    } else if j == 3 {
        let bv = spec_render_bool(img.read_only);
        assert(l == "  read_only: "@ + bv);
        assert(l[0] == ' ' && l[1] == ' ');
        reveal_strlit("true");
        reveal_strlit("false");
        assert("true"@.len() == 4);
        assert("false"@.len() == 5);
        let r = l.skip(2);
        assert(r =~= "read_only: "@ + bv);
        lemma_not_prefix_diff0("name: "@, r);
        lemma_not_prefix_diff0("path: "@, r);
        lemma_not_prefix_diff0("icon: "@, r);
        assert("read_only: "@ =~= r.subrange(0, 11));
        assert(r.skip(11) =~= bv);
        assert(crate::parse::spec_bool_value(bv) == Some(img.read_only));
        assert(spec_field(p, r) == Ok::<PartialV, ParseError>(spec_mass_partial(img, 4)));
    } else {
        let bv = spec_render_bool(img.as_cdrom);
        assert(l == "  as_cdrom: "@ + bv);
        assert(l[0] == ' ' && l[1] == ' ');
        reveal_strlit("true");
        reveal_strlit("false");
        assert("true"@.len() == 4);
        assert("false"@.len() == 5);
        let r = l.skip(2);
        assert(r =~= "as_cdrom: "@ + bv);
        lemma_not_prefix_diff0("name: "@, r);
        lemma_not_prefix_diff0("path: "@, r);
        lemma_not_prefix_diff0("icon: "@, r);
        lemma_not_prefix_diff0("read_only: "@, r);
        assert("as_cdrom: "@ =~= r.subrange(0, 10));
        assert(r.skip(10) =~= bv);
        assert(crate::parse::spec_bool_value(bv) == Some(img.as_cdrom));
        assert(spec_field(p, r) == Ok::<PartialV, ParseError>(spec_mass_partial(img, 5)));
    }
}

proof fn lemma_mass_finish(img: ImageInfoV)
    ensures
        spec_finish(spec_mass_partial(img, 5)) == Ok::<GadgetV, ParseError>(
            GadgetV::MassStorage(img),
        ),
{
    assert(ImageInfoV {
        name: img.name,
        path: img.path,
        icon: img.icon,
        read_only: img.read_only,
        as_cdrom: img.as_cdrom,
    } =~= img);
}

proof fn lemma_heads()
    ensures
        spec_head("Serial: {}"@) == Ok::<(StateV, Seq<GadgetV>), ParseError>(
            (StateV::Top, seq![GadgetV::Serial]),
        ),
        spec_head("Ethernet: {}"@) == Ok::<(StateV, Seq<GadgetV>), ParseError>(
            (StateV::Top, seq![GadgetV::Ethernet]),
        ),
        spec_head("MassStorage:"@) == Ok::<(StateV, Seq<GadgetV>), ParseError>(
            (StateV::InMass(spec_empty_partial()), Seq::<GadgetV>::empty()),
        ),
        !spec_indented("Serial: {}"@),
        !spec_indented("Ethernet: {}"@),
        !spec_indented("MassStorage:"@),
{
    reveal_strlit("Serial: {}");
    reveal_strlit("Ethernet: {}");
    reveal_strlit("MassStorage:");
    assert("Serial: {}"@.len() == 10);
    assert("Ethernet: {}"@.len() == 12);
    assert("MassStorage:"@.len() == 12);
    assert("Ethernet: {}"@ != "Serial: {}"@);
    assert("MassStorage:"@ != "Serial: {}"@);
    assert("MassStorage:"@ != "Ethernet: {}"@) by {
        if "MassStorage:"@ == "Ethernet: {}"@ {
            assert("MassStorage:"@[0] == "Ethernet: {}"@[0]);
        }
    }
    assert("Serial: {}"@[0] != ' ');
    assert("Ethernet: {}"@[0] != ' ');
    assert("MassStorage:"@[0] != ' ');
}

proof fn lemma_lines_join(ls: Seq<Seq<char>>)
    requires
        ls.len() >= 1,
        forall|i: int| 0 <= i < ls.len() ==> no_nl(#[trigger] ls[i]),
    ensures
        spec_lines(spec_join_nl(ls)) == ls,
    decreases ls.len(),
{
    if ls.len() == 1 {
        lemma_lines_single(ls[0]);
        assert(seq![ls[0]] =~= ls);
    } else {
        assert(forall|i: int| 0 <= i < ls.skip(1).len() ==> no_nl(#[trigger] ls.skip(1)[i]));
        lemma_lines_join(ls.skip(1));
        lemma_lines_concat(ls[0], spec_join_nl(ls.skip(1)));
        assert(seq![ls[0]] + ls.skip(1) =~= ls);
    }
}

// ---------------------------------------------------------------------------
// No rendered line carries a newline.
// ---------------------------------------------------------------------------

proof fn lemma_no_nl_concat(a: Seq<char>, b: Seq<char>)
    requires
        no_nl(a),
        no_nl(b),
    ensures
        no_nl(a + b),
{
    assert forall|i: int| 0 <= i < (a + b).len() implies (a + b)[i] != '\n' by {
        if i < a.len() {
            assert((a + b)[i] == a[i]);
        } else {
            assert((a + b)[i] == b[i - a.len()]);
        }
    }
}

proof fn lemma_render_gadget_no_nl(g: GadgetV)
    requires
        spec_renderable(g),
    ensures
        forall|j: int|
            0 <= j < spec_render_gadget(g).len() ==> no_nl(#[trigger] spec_render_gadget(g)[j]),
{
    reveal_strlit("Serial: {}");
    reveal_strlit("Ethernet: {}");
    reveal_strlit("MassStorage:");
    reveal_strlit("  name: ");
    reveal_strlit("  path: ");
    reveal_strlit("  icon: ");
    reveal_strlit("  read_only: ");
    reveal_strlit("  as_cdrom: ");
    reveal_strlit("File(");
    reveal_strlit("Resource(");
    reveal_strlit(")");
    reveal_strlit("true");
    reveal_strlit("false");
    assert(no_nl("Serial: {}"@));
    assert(no_nl("Ethernet: {}"@));
    assert(no_nl("MassStorage:"@));
    assert(no_nl("  name: "@));
    assert(no_nl("  path: "@));
    assert(no_nl("  icon: "@));
    assert(no_nl("  read_only: "@));
    assert(no_nl("  as_cdrom: "@));
    assert(no_nl("File("@));
    assert(no_nl("Resource("@));
    assert(no_nl(")"@));
    assert(no_nl("true"@));
    assert(no_nl("false"@));
    match g {
        GadgetV::MassStorage(img) => {
            lemma_no_nl_concat("  name: "@, img.name);
            lemma_no_nl_concat("  path: "@, img.path);
            match img.icon {
                IconV::File(p) => {
                    lemma_no_nl_concat("File("@, p);
                    lemma_no_nl_concat("File("@ + p, ")"@);
                },
                IconV::Resource(n) => {
                    lemma_no_nl_concat("Resource("@, n);
                    lemma_no_nl_concat("Resource("@ + n, ")"@);
                },
            }
            lemma_no_nl_concat("  icon: "@, spec_render_icon(img.icon));
            lemma_no_nl_concat("  read_only: "@, spec_render_bool(img.read_only));
            lemma_no_nl_concat("  as_cdrom: "@, spec_render_bool(img.as_cdrom));
        },
        GadgetV::Serial => {},
        GadgetV::Ethernet => {},
    }
}

proof fn lemma_render_lines_no_nl(gs: Seq<GadgetV>)
    requires
        forall|k: int| 0 <= k < gs.len() ==> spec_renderable(#[trigger] gs[k]),
    ensures
        forall|j: int|
            0 <= j < spec_render_lines(gs).len() ==> no_nl(#[trigger] spec_render_lines(gs)[j]),
    decreases gs.len(),
{
    if gs.len() > 0 {
        lemma_render_gadget_no_nl(gs[0]);
        assert(forall|k: int| 0 <= k < gs.skip(1).len() ==> spec_renderable(
            #[trigger] gs.skip(1)[k],
        ));
        lemma_render_lines_no_nl(gs.skip(1));
        let rl = spec_render_gadget(gs[0]);
        let rest = spec_render_lines(gs.skip(1));
        assert forall|j: int| 0 <= j < (rl + rest).len() implies no_nl(#[trigger] (rl + rest)[j]) by {
            if j < rl.len() {
                assert((rl + rest)[j] == rl[j]);
            } else {
                assert((rl + rest)[j] == rest[j - rl.len()]);
            }
        }
    }
}

// ---------------------------------------------------------------------------
// The round trip.
// ---------------------------------------------------------------------------

/// The record an open block would add were the text to end here.
spec fn st_emits(st: StateV) -> Seq<GadgetV> {
    match st {
        StateV::Top => Seq::<GadgetV>::empty(),
        StateV::InMass(p) => match spec_finish(p) {
            Ok(g) => seq![g],
            Err(_) => Seq::<GadgetV>::empty(),
        },
    }
}

/// A state the run may pass a rendered record boundary in.
spec fn st_ok(st: StateV) -> bool {
    match st {
        StateV::Top => true,
        StateV::InMass(p) => spec_finish(p) is Ok,
    }
}

#[verifier::rlimit(100)]
proof fn lemma_run_renders(
    lines: Seq<Seq<char>>,
    i: int,
    st: StateV,
    acc: Seq<GadgetV>,
    gs: Seq<GadgetV>,
)
    requires
        0 <= i <= lines.len(),
        lines.skip(i) == spec_render_lines(gs),
        st_ok(st),
        forall|k: int| 0 <= k < gs.len() ==> spec_renderable(#[trigger] gs[k]),
    ensures
        spec_run(lines, i, st, acc) == Ok::<Seq<GadgetV>, ParseError>(acc + st_emits(st) + gs),
    decreases gs.len(),
{
    let emitted = st_emits(st);
    if gs.len() == 0 {
        assert(spec_render_lines(gs) =~= Seq::<Seq<char>>::empty());
        assert(lines.skip(i).len() == 0);
        assert(i == lines.len());
        match st {
            StateV::Top => {
                assert(acc + emitted + gs =~= acc);
            },
            StateV::InMass(p) => {
                match spec_finish(p) {
                    Ok(g) => {
                        assert(acc + emitted + gs =~= acc.push(g));
                    },
                    Err(_) => {
                        assert(false);
                    },
                }
            },
        }
    } else {
        let g = gs[0];
        let rl = spec_render_gadget(g);
        let rest_lines = spec_render_lines(gs.skip(1));
        let tail = gs.skip(1);
        assert(lines.skip(i) == rl + rest_lines);
        assert forall|j: int| 0 <= j < rl.len() implies lines[i + j] == rl[j] by {
            assert(lines.skip(i)[j] == lines[i + j]);
            assert((rl + rest_lines)[j] == rl[j]);
        }
        assert(lines.len() - i == rl.len() + rest_lines.len());
        assert forall|j: int| 0 <= j < rest_lines.len() implies lines.skip(i + rl.len() as int)[j]
            == rest_lines[j] by {
            assert(lines.skip(i + rl.len() as int)[j] == lines[i + rl.len() + j]);
            assert(lines.skip(i)[rl.len() + j] == lines[i + rl.len() + j]);
            assert((rl + rest_lines)[rl.len() + j] == rest_lines[j]);
        }
        assert(lines.skip(i + rl.len() as int) =~= rest_lines);
        assert(forall|k: int| 0 <= k < tail.len() ==> spec_renderable(#[trigger] tail[k]));
        assert(seq![g] + tail =~= gs);
        lemma_heads();
        let l0 = rl[0];
        // what the head line makes of the current state
        let head_r = spec_head(l0);
        let sr = spec_step(st, l0);
        match g {
            GadgetV::Serial => {
                assert(l0 == "Serial: {}"@);
            },
            GadgetV::Ethernet => {
                assert(l0 == "Ethernet: {}"@);
            },
            GadgetV::MassStorage(_) => {
                assert(l0 == "MassStorage:"@);
            },
        }
        assert(head_r is Ok);
        let head_st = head_r->Ok_0.0;
        let head_out = head_r->Ok_0.1;
        match st {
            StateV::Top => {
                assert(sr == head_r);
                assert(emitted + head_out =~= head_out);
            },
            StateV::InMass(p) => {
                assert(!spec_indented(l0));
                match spec_finish(p) {
                    Ok(g0) => {
                        assert(sr == Ok::<(StateV, Seq<GadgetV>), ParseError>(
                            (head_st, seq![g0] + head_out),
                        ));
                        assert(emitted + head_out =~= seq![g0] + head_out);
                    },
                    Err(_) => {
                        assert(false);
                    },
                }
            },
        }
        assert(sr == Ok::<(StateV, Seq<GadgetV>), ParseError>((head_st, sr->Ok_0.1)));
        assert(sr->Ok_0.1 =~= emitted + head_out);
        let acc1 = acc + (emitted + head_out);
        assert(spec_run(lines, i, st, acc) == spec_run(lines, i + 1, head_st, acc1));
        match g {
            GadgetV::Serial => {
                assert(head_st == StateV::Top);
                assert(head_out == seq![GadgetV::Serial]);
                assert(lines.skip(i + 1) =~= rest_lines);
                lemma_run_renders(lines, i + 1, StateV::Top, acc1, tail);
                assert(acc1 + st_emits(StateV::Top) + tail =~= acc + emitted + gs);
            },
            GadgetV::Ethernet => {
                assert(head_st == StateV::Top);
                assert(head_out == seq![GadgetV::Ethernet]);
                assert(lines.skip(i + 1) =~= rest_lines);
                lemma_run_renders(lines, i + 1, StateV::Top, acc1, tail);
                assert(acc1 + st_emits(StateV::Top) + tail =~= acc + emitted + gs);
            },
            GadgetV::MassStorage(img) => {
                assert(head_st == StateV::InMass(spec_empty_partial()));
                assert(head_out =~= Seq::<GadgetV>::empty());
                assert(spec_empty_partial() =~= spec_mass_partial(img, 0));
                assert(acc1 + Seq::<GadgetV>::empty() =~= acc1);
                lemma_mass_field_step(img, 0);
                lemma_mass_field_step(img, 1);
                lemma_mass_field_step(img, 2);
                lemma_mass_field_step(img, 3);
                lemma_mass_field_step(img, 4);
                assert(spec_run(lines, i + 1, StateV::InMass(spec_mass_partial(img, 0)), acc1)
                    == spec_run(lines, i + 2, StateV::InMass(spec_mass_partial(img, 1)), acc1));
                assert(spec_run(lines, i + 2, StateV::InMass(spec_mass_partial(img, 1)), acc1)
                    == spec_run(lines, i + 3, StateV::InMass(spec_mass_partial(img, 2)), acc1));
                assert(spec_run(lines, i + 3, StateV::InMass(spec_mass_partial(img, 2)), acc1)
                    == spec_run(lines, i + 4, StateV::InMass(spec_mass_partial(img, 3)), acc1));
                assert(spec_run(lines, i + 4, StateV::InMass(spec_mass_partial(img, 3)), acc1)
                    == spec_run(lines, i + 5, StateV::InMass(spec_mass_partial(img, 4)), acc1));
                assert(spec_run(lines, i + 5, StateV::InMass(spec_mass_partial(img, 4)), acc1)
                    == spec_run(lines, i + 6, StateV::InMass(spec_mass_partial(img, 5)), acc1));
                lemma_mass_finish(img);
                assert(st_ok(StateV::InMass(spec_mass_partial(img, 5))));
                assert(lines.skip(i + 6) =~= rest_lines);
                lemma_run_renders(
                    lines,
                    i + 6,
                    StateV::InMass(spec_mass_partial(img, 5)),
                    acc1,
                    tail,
                );
                assert(st_emits(StateV::InMass(spec_mass_partial(img, 5))) =~= seq![
                    GadgetV::MassStorage(img),
                ]);
                assert(acc1 + st_emits(StateV::InMass(spec_mass_partial(img, 5))) + tail =~= acc
                    + emitted + gs);
            },
        }
    }
}

/// Parsing the rendering of any well-formed gadget list yields exactly
/// that list: as many records as were written, in their written order.
pub proof fn lemma_render_round_trip(gs: Seq<GadgetV>)
    requires
        forall|k: int| 0 <= k < gs.len() ==> spec_renderable(#[trigger] gs[k]),
    ensures
        spec_parse(spec_render_text(gs)) == Ok::<Seq<GadgetV>, ParseError>(gs),
{
    if gs.len() == 0 {
        assert(spec_render_lines(gs) =~= Seq::<Seq<char>>::empty());
        assert(spec_render_text(gs) =~= Seq::<char>::empty());
        let ls = spec_lines(spec_render_text(gs));
        assert(ls =~= seq![Seq::<char>::empty()]);
        assert(spec_head(Seq::<char>::empty()) == Ok::<(StateV, Seq<GadgetV>), ParseError>(
            (StateV::Top, Seq::<GadgetV>::empty()),
        ));
        assert(spec_run(ls, 0, StateV::Top, Seq::<GadgetV>::empty()) == spec_run(
            ls,
            1,
            StateV::Top,
            Seq::<GadgetV>::empty() + Seq::<GadgetV>::empty(),
        ));
        assert(Seq::<GadgetV>::empty() + Seq::<GadgetV>::empty() =~= Seq::<GadgetV>::empty());
        assert(spec_run(ls, 1, StateV::Top, Seq::<GadgetV>::empty())
            == Ok::<Seq<GadgetV>, ParseError>(Seq::<GadgetV>::empty()));
        assert(gs =~= Seq::<GadgetV>::empty());
    } else {
        let ls = spec_render_lines(gs);
        assert(ls.len() >= 1);
        lemma_render_lines_no_nl(gs);
        lemma_lines_join(ls);
        assert(spec_lines(spec_render_text(gs)) == ls);
        assert(ls.skip(0) =~= ls);
        lemma_run_renders(ls, 0, StateV::Top, Seq::<GadgetV>::empty(), gs);
        assert(Seq::<GadgetV>::empty() + st_emits(StateV::Top) + gs =~= gs);
    }
}

} // verus!
