use vstd::prelude::*;
use crate::binder::views_of;
use crate::builtins::{builtin_curves, builtin_set};
use crate::model::{Curve, CurveSegment, CurveTable, CurveView, KeyframeView, SegmentView};
use crate::scanner::chars_of;

verus! {

/// `a` and `b` are the same character once ASCII letters are folded to one
/// case.
pub open spec fn same_letter(a: char, b: char) -> bool {
    ||| a == b
    ||| ('A' <= a && a <= 'Z' && b as u32 == a as u32 + 32)
    ||| ('a' <= a && a <= 'z' && a as u32 == b as u32 + 32)
}

/// `a` and `b` are equal but for the case of ASCII letters.
pub open spec fn eq_ignore_ascii_case(a: Seq<char>, b: Seq<char>) -> bool {
    a.len() == b.len() && forall|i: int| 0 <= i < a.len() ==> same_letter(#[trigger] a[i], b[i])
}

fn same_letter_exec(a: char, b: char) -> (r: bool)
    ensures
        r == same_letter(a, b),
{
    a == b || ('A' <= a && a <= 'Z' && (b as u32) == (a as u32) + 32) || ('a' <= a && a <= 'z' && (a as u32)
        == (b as u32) + 32)
}

/// Whether `a` and `b` are equal but for the case of ASCII letters.
pub fn eq_ignore_ascii_case_exec(a: &Vec<char>, b: &Vec<char>) -> (r: bool)
    ensures
        r == eq_ignore_ascii_case(a@, b@),
{
    if a.len() != b.len() {
        return false;
    }
    let mut i: usize = 0;
    while i < a.len()
        invariant
            a@.len() == b@.len(),
            0 <= i <= a@.len(),
            forall|k: int| 0 <= k < i ==> same_letter(#[trigger] a@[k], b@[k]),
        decreases a@.len() - i,
    {
        if !same_letter_exec(a[i], b[i]) {
            return false;
        }
        i = i + 1;
    }
    true
}

/// Finds the curve that a subcurve segment naming `name` stands for among the
/// visible curves: the first whose name equals `name` but for the case of
/// ASCII letters.
pub fn find_curve(visible: &Vec<&Curve>, name: &str) -> (r: Option<usize>)
    ensures
        match r {
            Some(i) => {
                &&& i < visible@.len()
                &&& eq_ignore_ascii_case(visible@[i as int]@.name, name@)
                &&& forall|j: int| 0 <= j < i ==> !eq_ignore_ascii_case(#[trigger] visible@[j]@.name, name@)
            },
            None => forall|j: int| 0 <= j < visible@.len() ==> !eq_ignore_ascii_case(#[trigger] visible@[j]@.name, name@),
        },
{
    let target = chars_of(name);
    let mut i: usize = 0;
    while i < visible.len()
        invariant
            0 <= i <= visible@.len(),
            target@ == name@,
            forall|j: int| 0 <= j < i ==> !eq_ignore_ascii_case(#[trigger] visible@[j]@.name, name@),
        decreases visible@.len() - i,
    {
        if eq_ignore_ascii_case_exec(&chars_of(visible[i].name.as_str()), &target) {
            return Some(i);
        }
        i = i + 1;
    }
    None
}

/// A segment that follows the curve named `from` follows `to` instead.
pub open spec fn redirect_segment(sv: SegmentView, from: Seq<char>, to: Seq<char>) -> SegmentView {
    match sv {
        SegmentView::Subcurve { curve } => if curve == from {
            SegmentView::Subcurve { curve: to }
        } else {
            sv
        },
        _ => sv,
    }
}

pub open spec fn redirect_keyframe(k: KeyframeView, from: Seq<char>, to: Seq<char>) -> KeyframeView {
    KeyframeView { x: k.x, y: k.y, segment: redirect_segment(k.segment, from, to) }
}

/// A curve whose subcurve segments that follow `from` follow `to` instead.
pub open spec fn redirect_curve(c: CurveView, from: Seq<char>, to: Seq<char>) -> CurveView {
    CurveView {
        name: c.name,
        keyframes: c.keyframes.map_values(|k: KeyframeView| redirect_keyframe(k, from, to)),
    }
}

/// The tables after curve `c` of table `t` is renamed from `from` to `to`:
/// that curve takes the new name, and every subcurve segment of every table
/// that followed `from` follows `to`.
pub open spec fn renamed_tables(ts: Seq<Seq<CurveView>>, t: int, c: int, from: Seq<char>, to: Seq<char>) -> Seq<
    Seq<CurveView>,
> {
    Seq::new(
        ts.len(),
        |i: int|
            Seq::new(
                ts[i].len(),
                |j: int|
                    {
                        let cv = redirect_curve(ts[i][j], from, to);
                        if i == t && j == c {
                            CurveView { name: to, keyframes: cv.keyframes }
                        } else {
                            cv
                        }
                    },
            ),
    )
}

/// The tables as plain values.
pub open spec fn tables_view(ts: Seq<CurveTable>) -> Seq<Seq<CurveView>> {
    ts.map_values(|t: CurveTable| t@)
}

/// Some curve other than curve `c` of table `t`, in the tables or among the
/// builtin curves, is named `name`, ignoring the case of ASCII letters.
pub open spec fn name_taken(ts: Seq<Seq<CurveView>>, t: int, c: int, name: Seq<char>) -> bool {
    ||| exists|i: int, j: int|
        0 <= i < ts.len() && 0 <= j < ts[i].len() && !(i == t && j == c) && eq_ignore_ascii_case(
            #[trigger] ts[i][j].name,
            name,
        )
    ||| exists|k: int| 0 <= k < builtin_set().len() && eq_ignore_ascii_case(#[trigger] builtin_set()[k].name, name)
}

fn redirect_curve_exec(curve: &mut Curve, from: &String, to: &String)
    ensures
        final(curve)@ == redirect_curve(old(curve)@, from@, to@),
{
    let ghost ks = old(curve).keyframes@;
    let mut k: usize = 0;
    while k < curve.keyframes.len()
        invariant
            curve.name@ == old(curve).name@,
            curve.keyframes@.len() == ks.len(),
            0 <= k <= ks.len(),
            forall|m: int|
                0 <= m < ks.len() ==> (#[trigger] curve.keyframes@[m])@ == if m < k {
                    redirect_keyframe(ks[m]@, from@, to@)
                } else {
                    ks[m]@
                },
        decreases ks.len() - k,
    {
        let follows = match &curve.keyframes[k].segment {
            CurveSegment::Subcurve { curve: n } => *n == *from,
            _ => false,
        };
        if follows {
            curve.keyframes[k].segment = CurveSegment::Subcurve { curve: to.clone() };
        }
        k = k + 1;
    }
    proof {
        assert(views_of(curve.keyframes@) =~= views_of(ks).map_values(
            |kv: KeyframeView| redirect_keyframe(kv, from@, to@),
        ));
    }
}

fn redirect_table_exec(table: &mut CurveTable, from: &String, to: &String)
    ensures
        final(table)@ == old(table)@.map_values(|cv: CurveView| redirect_curve(cv, from@, to@)),
{
    let ghost cs = old(table).curves@;
    let mut j: usize = 0;
    while j < table.curves.len()
        invariant
            table.curves@.len() == cs.len(),
            0 <= j <= cs.len(),
            forall|m: int|
                0 <= m < cs.len() ==> (#[trigger] table.curves@[m])@ == if m < j {
                    redirect_curve(cs[m]@, from@, to@)
                } else {
                    cs[m]@
                },
        decreases cs.len() - j,
    {
        redirect_curve_exec(&mut table.curves[j], from, to);
        j = j + 1;
    }
    proof {
        assert(table@ =~= old(table)@.map_values(|cv: CurveView| redirect_curve(cv, from@, to@)));
    }
}

/// Renames curve `c` of table `t` to `new_name`, and points every subcurve
/// segment of every table that followed the old name to the new one. Refused,
/// with nothing changed, when another curve of the tables or of the builtin
/// set already has that name, ignoring the case of ASCII letters.
pub fn rename_curve(tables: &mut Vec<CurveTable>, t: usize, c: usize, new_name: &str) -> (r: bool)
    requires
        t < old(tables)@.len(),
        c < old(tables)@[t as int].curves@.len(),
    ensures
        r == !name_taken(tables_view(old(tables)@), t as int, c as int, new_name@),
        r ==> tables_view(final(tables)@) == renamed_tables(
            tables_view(old(tables)@),
            t as int,
            c as int,
            old(tables)@[t as int].curves@[c as int].name@,
            new_name@,
        ),
        !r ==> tables_view(final(tables)@) == tables_view(old(tables)@),
{
    let ghost ts = tables_view(tables@);
    let target = chars_of(new_name);
    let builtins = builtin_curves();
    let mut k: usize = 0;
    while k < builtins.len()
        invariant
            0 <= k <= builtins@.len(),
            views_of(builtins@) == builtin_set(),
            tables@ == old(tables)@,
            ts == tables_view(tables@),
            target@ == new_name@,
            forall|m: int| 0 <= m < k ==> !eq_ignore_ascii_case(#[trigger] builtin_set()[m].name, new_name@),
        decreases builtins@.len() - k,
    {
        if eq_ignore_ascii_case_exec(&chars_of(builtins[k].name.as_str()), &target) {
            proof {
                assert(builtin_set()[k as int] == builtins@[k as int]@);
                assert(eq_ignore_ascii_case(builtin_set()[k as int].name, new_name@));
                assert(ts == tables_view(old(tables)@));
            }
            return false;
        }
        k = k + 1;
    }
    let mut i: usize = 0;
    while i < tables.len()
        invariant
            tables@ == old(tables)@,
            ts == tables_view(tables@),
            0 <= i <= ts.len(),
            target@ == new_name@,
            forall|a: int, b: int|
                0 <= a < i && 0 <= b < ts[a].len() && !(a == t && b == c) ==> !eq_ignore_ascii_case(
                    #[trigger] ts[a][b].name,
                    new_name@,
                ),
        decreases ts.len() - i,
    {
        let mut j: usize = 0;
        while j < tables[i].curves.len()
            invariant
                tables@ == old(tables)@,
                ts == tables_view(tables@),
                0 <= i < ts.len(),
                0 <= j <= ts[i as int].len(),
                ts[i as int].len() == tables@[i as int].curves@.len(),
                target@ == new_name@,
                forall|a: int, b: int|
                    0 <= a < i && 0 <= b < ts[a].len() && !(a == t && b == c) ==> !eq_ignore_ascii_case(
                        #[trigger] ts[a][b].name,
                        new_name@,
                    ),
                forall|b: int|
                    0 <= b < j && !(i == t && b == c) ==> !eq_ignore_ascii_case(
                        #[trigger] ts[i as int][b].name,
                        new_name@,
                    ),
            decreases ts[i as int].len() - j,
        {
            if !(i == t && j == c) && eq_ignore_ascii_case_exec(&chars_of(tables[i].curves[j].name.as_str()), &target) {
                proof {
                    assert(ts[i as int][j as int] == tables@[i as int].curves@[j as int]@);
                    assert(eq_ignore_ascii_case(ts[i as int][j as int].name, new_name@));
                }
                return false;
            }
            proof {
                assert(ts[i as int][j as int] == tables@[i as int].curves@[j as int]@);
            }
            j = j + 1;
        }
        i = i + 1;
    }
    let from = tables[t].curves[c].name.clone();
    let to = crate::scanner::string_of(target.as_slice());
    proof {
        assert(ts[t as int] == tables@[t as int]@);
        assert(ts[t as int][c as int] == tables@[t as int].curves@[c as int]@);
        assert(!name_taken(ts, t as int, c as int, new_name@));
    }
    let mut i: usize = 0;
    while i < tables.len()
        invariant
            tables@.len() == ts.len(),
            0 <= i <= ts.len(),
            from@ == ts[t as int][c as int].name,
            to@ == new_name@,
            forall|m: int|
                0 <= m < ts.len() ==> (#[trigger] tables@[m])@ == if m < i {
                    ts[m].map_values(|cv: CurveView| redirect_curve(cv, from@, to@))
                } else {
                    ts[m]
                },
        decreases ts.len() - i,
    {
        redirect_table_exec(&mut tables[i], &from, &to);
        i = i + 1;
    }
    let ghost mid = tables@;
    tables[t].curves[c].name = to;
    proof {
        let want = renamed_tables(ts, t as int, c as int, from@, new_name@);
        assert forall|a: int| 0 <= a < ts.len() implies #[trigger] tables_view(tables@)[a] =~= want[a] by {
            assert(mid[a]@ == ts[a].map_values(|cv: CurveView| redirect_curve(cv, from@, to@)));
            if a == t {
                assert(tables@[a].curves@.len() == mid[a].curves@.len());
                assert forall|b: int| 0 <= b < ts[a].len() implies #[trigger] tables@[a].curves@[b]@ == want[a][b] by {
                    assert(mid[a]@[b] == mid[a].curves@[b]@);
                }
            } else {
                assert(tables@[a] == mid[a]);
            }
        }
        assert(tables_view(tables@) =~= want);
    }
    true
}

/// The curves of the tables, table by table, in order.
pub open spec fn table_curves(ts: Seq<Seq<CurveView>>) -> Seq<CurveView>
    decreases ts.len(),
{
    if ts.len() == 0 {
        seq![]
    } else {
        table_curves(ts.drop_last()) + ts.last()
    }
}

/// The curves that references point to.
pub open spec fn refs_view(r: Seq<&Curve>) -> Seq<CurveView> {
    r.map_values(|c: &Curve| c@)
}

/// The curves that subcurve names resolve against: the builtin curves, then
/// the curves of each table in order.
pub fn get_available_curves<'a>(builtins: &'a Vec<Curve>, tables: &'a Vec<CurveTable>) -> (r: Vec<&'a Curve>)
    ensures
        refs_view(r@) == views_of(builtins@) + table_curves(tables_view(tables@)),
{
    let mut r: Vec<&'a Curve> = Vec::new();
    let mut i: usize = 0;
    while i < builtins.len()
        invariant
            0 <= i <= builtins@.len(),
            r@.len() == i,
            refs_view(r@) == views_of(builtins@.subrange(0, i as int)),
        decreases builtins@.len() - i,
    {
        let ghost old_r = r@;
        r.push(&builtins[i]);
        proof {
            let want = views_of(builtins@.subrange(0, i + 1));
            assert forall|k: int| 0 <= k < i + 1 implies #[trigger] refs_view(r@)[k] == want[k] by {
                if k < i {
                    assert(r@[k] == old_r[k]);
                    assert(refs_view(old_r)[k] == views_of(builtins@.subrange(0, i as int))[k]);
                } else {
                    assert(r@[k] == &builtins@[i as int]);
                }
            }
            assert(refs_view(r@) =~= want);
        }
        i = i + 1;
    }
    proof {
        assert(builtins@.subrange(0, builtins@.len() as int) =~= builtins@);
        assert(tables_view(tables@).subrange(0, 0) =~= Seq::<Seq<CurveView>>::empty());
        assert(views_of(builtins@) + table_curves(Seq::<Seq<CurveView>>::empty()) =~= views_of(builtins@));
    }
    let mut t: usize = 0;
    while t < tables.len()
        invariant
            0 <= t <= tables@.len(),
            refs_view(r@) == views_of(builtins@) + table_curves(
                tables_view(tables@).subrange(0, t as int),
            ),
        decreases tables@.len() - t,
    {
        let ghost before = refs_view(r@);
        let mut j: usize = 0;
        proof {
            assert(tables@[t as int].curves@.subrange(0, 0) =~= Seq::<Curve>::empty());
            assert(before + views_of(tables@[t as int].curves@.subrange(0, 0)) =~= before);
        }
        while j < tables[t].curves.len()
            invariant
                0 <= t < tables@.len(),
                0 <= j <= tables@[t as int].curves@.len(),
                r@.len() == before.len() + j,
                refs_view(r@) == before + views_of(tables@[t as int].curves@.subrange(0, j as int)),
            decreases tables@[t as int].curves@.len() - j,
        {
            let ghost old_r = r@;
            r.push(&tables[t].curves[j]);
            proof {
                let cur = tables@[t as int].curves@;
                let want = before + views_of(cur.subrange(0, j + 1));
                assert forall|k: int| 0 <= k < r@.len() implies #[trigger] refs_view(r@)[k] == want[k] by {
                    if k < r@.len() - 1 {
                        assert(r@[k] == old_r[k]);
                        assert(refs_view(old_r)[k] == (before + views_of(cur.subrange(0, j as int)))[k]);
                    } else {
                        assert(r@[k] == &cur[j as int]);
                    }
                }
                assert(refs_view(r@) =~= want);
            }
            j = j + 1;
        }
        proof {
            let tv = tables_view(tables@);
            assert(tables@[t as int].curves@.subrange(0, tables@[t as int].curves@.len() as int)
                =~= tables@[t as int].curves@);
            assert(tv.subrange(0, t + 1).drop_last() =~= tv.subrange(0, t as int));
            assert(tv.subrange(0, t + 1).last() == tables@[t as int]@);
            assert(refs_view(r@) =~= views_of(builtins@) + table_curves(tv.subrange(0, t + 1)));
        }
        t = t + 1;
    }
    proof {
        assert(tables_view(tables@).subrange(0, tables@.len() as int) =~= tables_view(tables@));
    }
    r
}

/// `name` ends with `tail`, ignoring the case of ASCII letters.
pub open spec fn ends_with_ignore_ascii_case(name: Seq<char>, tail: Seq<char>) -> bool {
    tail.len() <= name.len() && eq_ignore_ascii_case(name.subrange(name.len() - tail.len(), name.len() as int), tail)
}

/// Whether a file name is that of a curve table: `curves.tbl`, or a name
/// ending in `-crv.tbm`, in any case of ASCII letters.
pub fn is_curve_table_file_name(name: &str) -> (r: bool)
    ensures
        r == (eq_ignore_ascii_case(name@, "curves.tbl"@) || ends_with_ignore_ascii_case(name@, "-crv.tbm"@)),
{
    let n = chars_of(name);
    let whole = chars_of("curves.tbl");
    let tail = chars_of("-crv.tbm");
    if eq_ignore_ascii_case_exec(&n, &whole) {
        return true;
    }
    if tail.len() > n.len() {
        return false;
    }
    let end = crate::scanner::copy_range(&n, n.len() - tail.len(), n.len());
    eq_ignore_ascii_case_exec(&end, &tail)
}

/// The index of the first curve of `table` whose name one of `available`
/// already has, ignoring the case of ASCII letters, if any.
pub fn find_name_collision(available: &Vec<&Curve>, table: &CurveTable) -> (r: Option<usize>)
    ensures
        match r {
            Some(i) => {
                &&& i < table.curves@.len()
                &&& exists|j: int| 0 <= j < available@.len() && eq_ignore_ascii_case(#[trigger] available@[j]@.name, table.curves@[i as int].name@)
                &&& forall|k: int, j: int| 0 <= k < i && 0 <= j < available@.len() ==> !eq_ignore_ascii_case(#[trigger] available@[j]@.name, #[trigger] table.curves@[k].name@)
            },
            None => forall|k: int, j: int| 0 <= k < table.curves@.len() && 0 <= j < available@.len() ==> !eq_ignore_ascii_case(#[trigger] available@[j]@.name, #[trigger] table.curves@[k].name@),
        },
{
    let mut i: usize = 0;
    while i < table.curves.len()
        invariant
            0 <= i <= table.curves@.len(),
            forall|k: int, j: int| 0 <= k < i && 0 <= j < available@.len() ==> !eq_ignore_ascii_case(#[trigger] available@[j]@.name, #[trigger] table.curves@[k].name@),
        decreases table.curves@.len() - i,
    {
        let mut j: usize = 0;
        let name = chars_of(table.curves[i].name.as_str());
        while j < available.len()
            invariant
                0 <= i < table.curves@.len(),
                0 <= j <= available@.len(),
                name@ == table.curves@[i as int].name@,
                forall|k: int, m: int| 0 <= k < i && 0 <= m < available@.len() ==> !eq_ignore_ascii_case(#[trigger] available@[m]@.name, #[trigger] table.curves@[k].name@),
                forall|m: int| 0 <= m < j ==> !eq_ignore_ascii_case(#[trigger] available@[m]@.name, table.curves@[i as int].name@),
            decreases available@.len() - j,
        {
            if eq_ignore_ascii_case_exec(&chars_of(available[j].name.as_str()), &name) {
                proof {
                    assert(eq_ignore_ascii_case(available@[j as int]@.name, table.curves@[i as int].name@));
                }
                return Some(i);
            }
            j = j + 1;
        }
        i = i + 1;
    }
    None
}

} // verus!
