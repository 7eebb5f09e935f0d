//! Wavefront OBJ models: reading the `v`, `vt`, `vn` and `f` lines of a file
//! into a raw model, and resolving each face's 1-based indices into the
//! coordinates of its corners.
//!
//! Coordinates stay the text the file gives them (a number token each); the
//! caller reads them as numbers.
use crate::pattern::{captures_all, regex_captures, FACE_PATTERN, NORMAL_PATTERN, TEXTURE_PATTERN, VERTEX_PATTERN};
use crate::text::{has_prefix, parse_usize, parsed_usize, starts_with, trim, trimmed};
use vstd::prelude::*;

verus! {

/// Three coordinate tokens.
pub type Triple = (Seq<char>, Seq<char>, Seq<char>);

/// Two coordinate tokens.
pub type Pair = (Seq<char>, Seq<char>);

/// The 1-based vertex indices and texture vertex indices of a face's corners.
pub type FaceIndices = ((usize, usize, usize), (usize, usize, usize));

/// The capture groups of one match.
pub type Groups = Seq<Option<Seq<char>>>;

/// Group `i` of a match, trimmed; `None` when there is no such group or it
/// took no part in the match.
pub open spec fn group_token(groups: Groups, i: int) -> Option<Seq<char>> {
    if 0 <= i < groups.len() {
        match groups[i] {
            Some(t) => Some(trimmed(t)),
            None => None,
        }
    } else {
        None
    }
}

/// Groups 1, 2 and 3 of a match.
pub open spec fn triple_of(groups: Groups) -> Option<Triple> {
    match (group_token(groups, 1), group_token(groups, 2), group_token(groups, 3)) {
        (Some(a), Some(b), Some(c)) => Some((a, b, c)),
        _ => None,
    }
}

/// Groups 1 and 2 of a match.
pub open spec fn pair_of(groups: Groups) -> Option<Pair> {
    match (group_token(groups, 1), group_token(groups, 2)) {
        (Some(a), Some(b)) => Some((a, b)),
        _ => None,
    }
}

/// Group `i` of a match read as a `usize`.
pub open spec fn index_of(groups: Groups, i: int) -> Option<usize> {
    match group_token(groups, i) {
        Some(t) => parsed_usize(t),
        None => None,
    }
}

/// The face of a match: vertex indices from groups 1, 3, 5 and texture
/// vertex indices from groups 2, 4, 6.
pub open spec fn face_of(groups: Groups) -> Option<FaceIndices> {
    match (
        index_of(groups, 1),
        index_of(groups, 2),
        index_of(groups, 3),
        index_of(groups, 4),
        index_of(groups, 5),
        index_of(groups, 6),
    ) {
        (Some(v0), Some(t0), Some(v1), Some(t1), Some(v2), Some(t2)) => Some(((v0, v1, v2), (t0, t1, t2))),
        _ => None,
    }
}

/// A face match gives, from its groups 1 to 6 (each trimmed and read as a
/// `usize`), the vertex indices of groups 1, 3, 5 and the texture vertex
/// indices of groups 2, 4, 6; it gives a face exactly when all six groups
/// took part and read as numbers.
pub proof fn lemma_face_groups(g: Groups)
    ensures
        face_of(g) is Some <==> (g.len() >= 7 && forall|k: int|
            1 <= k <= 6 ==> #[trigger] g[k] is Some && parsed_usize(trimmed(g[k]->0)) is Some),
        face_of(g) matches Some(((v0, v1, v2), (t0, t1, t2))) ==> {
            &&& Some(v0) == parsed_usize(trimmed(g[1]->0))
            &&& Some(t0) == parsed_usize(trimmed(g[2]->0))
            &&& Some(v1) == parsed_usize(trimmed(g[3]->0))
            &&& Some(t1) == parsed_usize(trimmed(g[4]->0))
            &&& Some(v2) == parsed_usize(trimmed(g[5]->0))
            &&& Some(t2) == parsed_usize(trimmed(g[6]->0))
        },
{
    if g.len() >= 7 && forall|k: int| 1 <= k <= 6 ==> #[trigger] g[k] is Some && parsed_usize(trimmed(g[k]->0)) is Some {
    } else if face_of(g) is Some {
        assert(g.len() >= 7);
        assert forall|k: int| 1 <= k <= 6 implies #[trigger] g[k] is Some && parsed_usize(trimmed(g[k]->0)) is Some by {
            assert(index_of(g, k) is Some);
        }
    }
}

/// A vertex or normal match gives the trimmed texts of its groups 1, 2, 3 in
/// that order; a texture vertex match those of groups 1 and 2.
pub proof fn lemma_coordinate_groups(g: Groups)
    ensures
        triple_of(g) is Some <==> (g.len() >= 4 && g[1] is Some && g[2] is Some && g[3] is Some),
        triple_of(g) matches Some((a, b, c)) ==> a == trimmed(g[1]->0) && b == trimmed(g[2]->0) && c == trimmed(
            g[3]->0,
        ),
        pair_of(g) is Some <==> (g.len() >= 3 && g[1] is Some && g[2] is Some),
        pair_of(g) matches Some((a, b)) ==> a == trimmed(g[1]->0) && b == trimmed(g[2]->0),
{
}

/// The triples of all matches, or `None` if one of them lacks one.
pub open spec fn collect_triples(ms: Seq<Groups>) -> Option<Seq<Triple>> {
    if forall|i: int| 0 <= i < ms.len() ==> (#[trigger] triple_of(ms[i])) is Some {
        Some(Seq::new(ms.len(), |i: int| triple_of(ms[i])->0))
    } else {
        None
    }
}

/// The pairs of all matches, or `None` if one of them lacks one.
pub open spec fn collect_pairs(ms: Seq<Groups>) -> Option<Seq<Pair>> {
    if forall|i: int| 0 <= i < ms.len() ==> (#[trigger] pair_of(ms[i])) is Some {
        Some(Seq::new(ms.len(), |i: int| pair_of(ms[i])->0))
    } else {
        None
    }
}

/// The faces of all matches, or `None` if one of them lacks one.
pub open spec fn collect_faces(ms: Seq<Groups>) -> Option<Seq<FaceIndices>> {
    if forall|i: int| 0 <= i < ms.len() ==> (#[trigger] face_of(ms[i])) is Some {
        Some(Seq::new(ms.len(), |i: int| face_of(ms[i])->0))
    } else {
        None
    }
}

/// What the lines of an OBJ file list, in file order.
pub struct RawModelView {
    pub vertices: Seq<Triple>,
    pub texture_vertices: Seq<Pair>,
    pub faces: Seq<FaceIndices>,
    pub vertice_normals: Seq<Triple>,
}

/// A raw model with nothing in it.
pub open spec fn empty_raw() -> RawModelView {
    RawModelView {
        vertices: Seq::empty(),
        texture_vertices: Seq::empty(),
        faces: Seq::empty(),
        vertice_normals: Seq::empty(),
    }
}

/// `raw` with the records of the matches `ms` that a line of kind `kind`
/// holds (see [`line_kind`]): vertices from the triples of a vertex line,
/// faces from a face line, texture vertices from the pairs of a texture
/// vertex line, normals from the triples of a normal line, nothing for other
/// lines. `None` where a match lacks a group or, for a face, an index that
/// reads as a `usize`.
pub open spec fn add_matches_spec(raw: RawModelView, kind: int, ms: Seq<Groups>) -> Option<RawModelView> {
    if kind == 0 {
        match collect_triples(ms) {
            Some(vs) => Some(RawModelView { vertices: raw.vertices + vs, ..raw }),
            None => None,
        }
    } else if kind == 1 {
        match collect_faces(ms) {
            Some(fs) => Some(RawModelView { faces: raw.faces + fs, ..raw }),
            None => None,
        }
    } else if kind == 2 {
        match collect_pairs(ms) {
            Some(ts) => Some(RawModelView { texture_vertices: raw.texture_vertices + ts, ..raw }),
            None => None,
        }
    } else if kind == 3 {
        match collect_triples(ms) {
            Some(ns) => Some(RawModelView { vertice_normals: raw.vertice_normals + ns, ..raw }),
            None => None,
        }
    } else {
        Some(raw)
    }
}

/// `raw` with the records of one more line: a line starting `v `, `f `,
/// `vt ` or `vn ` adds what the matches of its kind's pattern hold; any other
/// line adds nothing. `None` where the pattern is refused or a match lacks a
/// group or, for a face, an index that reads as a `usize`.
pub open spec fn parse_line_spec(raw: RawModelView, line: Seq<char>) -> Option<RawModelView> {
    let kind = line_kind(line);
    if kind == 4 {
        Some(raw)
    } else {
        match regex_captures(kind_pattern(kind), line) {
            Some(ms) => add_matches_spec(raw, kind, ms),
            None => None,
        }
    }
}

/// Each kind of line adds to its own list and no other, from the matches of
/// its own pattern: a `v ` line the triples of [`VERTEX_PATTERN`] to the
/// vertices, an `f ` line the faces of [`FACE_PATTERN`] to the faces, a `vt `
/// line the pairs of [`TEXTURE_PATTERN`] to the texture vertices, a `vn `
/// line the triples of [`NORMAL_PATTERN`] to the normals; any other line
/// adds nothing.
pub proof fn lemma_line_adds_to_its_own_list(raw: RawModelView, line: Seq<char>)
    ensures
        has_prefix(line, seq!['v', ' ']) ==> parse_line_spec(raw, line) == match regex_captures(VERTEX_PATTERN@, line) {
            Some(ms) => match collect_triples(ms) {
                Some(vs) => Some(
                    RawModelView {
                        vertices: raw.vertices + vs,
                        texture_vertices: raw.texture_vertices,
                        faces: raw.faces,
                        vertice_normals: raw.vertice_normals,
                    },
                ),
                None => None,
            },
            None => None,
        },
        has_prefix(line, seq!['f', ' ']) ==> parse_line_spec(raw, line) == match regex_captures(FACE_PATTERN@, line) {
            Some(ms) => match collect_faces(ms) {
                Some(fs) => Some(
                    RawModelView {
                        vertices: raw.vertices,
                        texture_vertices: raw.texture_vertices,
                        faces: raw.faces + fs,
                        vertice_normals: raw.vertice_normals,
                    },
                ),
                None => None,
            },
            None => None,
        },
        has_prefix(line, seq!['v', 't', ' ']) ==> parse_line_spec(raw, line) == match regex_captures(
            TEXTURE_PATTERN@,
            line,
        ) {
            Some(ms) => match collect_pairs(ms) {
                Some(ts) => Some(
                    RawModelView {
                        vertices: raw.vertices,
                        texture_vertices: raw.texture_vertices + ts,
                        faces: raw.faces,
                        vertice_normals: raw.vertice_normals,
                    },
                ),
                None => None,
            },
            None => None,
        },
        has_prefix(line, seq!['v', 'n', ' ']) ==> parse_line_spec(raw, line) == match regex_captures(
            NORMAL_PATTERN@,
            line,
        ) {
            Some(ms) => match collect_triples(ms) {
                Some(ns) => Some(
                    RawModelView {
                        vertices: raw.vertices,
                        texture_vertices: raw.texture_vertices,
                        faces: raw.faces,
                        vertice_normals: raw.vertice_normals + ns,
                    },
                ),
                None => None,
            },
            None => None,
        },
        !has_prefix(line, seq!['v', ' ']) && !has_prefix(line, seq!['f', ' ']) && !has_prefix(line, seq!['v', 't', ' '])
            && !has_prefix(line, seq!['v', 'n', ' ']) ==> parse_line_spec(raw, line) == Some(raw),
{
    if has_prefix(line, seq!['v', 't', ' ']) {
        assert(line[1] == 't');
        assert(!has_prefix(line, seq!['v', ' ']));
    }
    if has_prefix(line, seq!['v', 'n', ' ']) {
        assert(line[1] == 'n');
        assert(!has_prefix(line, seq!['v', ' ']));
    }
}

/// `start` with the records of `lines` added in order; `None` where `start`
/// is `None` or a line cannot be read.
pub open spec fn parse_lines_from(start: Option<RawModelView>, lines: Seq<Seq<char>>) -> Option<RawModelView>
    decreases lines.len(),
{
    if lines.len() == 0 {
        start
    } else {
        match parse_lines_from(start, lines.drop_last()) {
            Some(raw) => parse_line_spec(raw, lines.last()),
            None => None,
        }
    }
}

/// The raw model of the lines of an OBJ file, read in order; `None` where a
/// line cannot be read.
pub open spec fn parse_lines_spec(lines: Seq<Seq<char>>) -> Option<RawModelView> {
    parse_lines_from(Some(empty_raw()), lines)
}

/// Which record a line holds, by its first characters, in the order the
/// reader tests them: 0 vertex, 1 face, 2 texture vertex, 3 vertex normal,
/// 4 none.
pub open spec fn line_kind(line: Seq<char>) -> int {
    if has_prefix(line, seq!['v', ' ']) {
        0
    } else if has_prefix(line, seq!['f', ' ']) {
        1
    } else if has_prefix(line, seq!['v', 't', ' ']) {
        2
    } else if has_prefix(line, seq!['v', 'n', ' ']) {
        3
    } else {
        4
    }
}

/// Reading `a` and then `b` is reading `a + b`.
pub proof fn lemma_parse_lines_append(start: Option<RawModelView>, a: Seq<Seq<char>>, b: Seq<Seq<char>>)
    ensures
        parse_lines_from(start, a + b) == parse_lines_from(parse_lines_from(start, a), b),
    decreases b.len(),
{
    if b.len() == 0 {
        assert(a + b =~= a);
    } else {
        lemma_parse_lines_append(start, a, b.drop_last());
        assert((a + b).drop_last() =~= a + b.drop_last());
        assert((a + b).last() == b.last());
    }
}

/// A line that adds no records can be left out: reading `a`, the line, then
/// `b` gives what reading `a` then `b` gives.
proof fn lemma_inert_line(a: Seq<Seq<char>>, line: Seq<char>, b: Seq<Seq<char>>)
    requires
        forall|raw: RawModelView| #[trigger] parse_line_spec(raw, line) == Some(raw),
    ensures
        parse_lines_spec(a + seq![line] + b) == parse_lines_spec(a + b),
{
    let e = Some(empty_raw());
    lemma_parse_lines_append(e, a + seq![line], b);
    lemma_parse_lines_append(e, a, seq![line]);
    lemma_parse_lines_append(e, a, b);
    assert(seq![line].drop_last() =~= Seq::<Seq<char>>::empty());
    let x = parse_lines_from(e, a);
    assert(parse_lines_from(x, seq![line].drop_last()) == x);
    if let Some(raw) = x {
        assert(parse_line_spec(raw, line) == Some(raw));
    }
    assert(parse_lines_from(x, seq![line]) == x);
}

/// `start` with the records of one more line.
pub open spec fn parse_step(start: Option<RawModelView>, line: Seq<char>) -> Option<RawModelView> {
    match start {
        Some(raw) => parse_line_spec(raw, line),
        None => None,
    }
}

proof fn lemma_two_lines(x: Option<RawModelView>, l1: Seq<char>, l2: Seq<char>)
    ensures
        parse_lines_from(x, seq![l1, l2]) == parse_step(parse_step(x, l1), l2),
{
    assert(seq![l1, l2].drop_last() =~= seq![l1]);
    assert(seq![l1].drop_last() =~= Seq::<Seq<char>>::empty());
    assert(parse_lines_from(x, seq![l1].drop_last()) == x);
    assert(parse_lines_from(x, seq![l1]) == parse_step(x, l1));
}

proof fn lemma_steps_commute(raw: RawModelView, l1: Seq<char>, l2: Seq<char>)
    requires
        line_kind(l1) != line_kind(l2),
    ensures
        parse_step(parse_step(Some(raw), l1), l2) == parse_step(parse_step(Some(raw), l2), l1),
{
}

/// Lines that do not start with `v `, `f `, `vt ` or `vn ` are ignored: a
/// file with such a line inserted anywhere reads the same.
pub proof fn lemma_other_lines_ignored(a: Seq<Seq<char>>, line: Seq<char>, b: Seq<Seq<char>>)
    requires
        line_kind(line) == 4,
    ensures
        parse_lines_spec(a + seq![line] + b) == parse_lines_spec(a + b),
{
    lemma_inert_line(a, line, b);
}

/// The pattern that a line of kind `kind` is matched against.
pub open spec fn kind_pattern(kind: int) -> Seq<char> {
    if kind == 0 {
        VERTEX_PATTERN@
    } else if kind == 1 {
        FACE_PATTERN@
    } else if kind == 2 {
        TEXTURE_PATTERN@
    } else {
        NORMAL_PATTERN@
    }
}

/// A line in which its pattern finds no match adds nothing: a file with such
/// a line inserted anywhere reads the same.
pub proof fn lemma_unmatched_lines_ignored(a: Seq<Seq<char>>, line: Seq<char>, b: Seq<Seq<char>>)
    requires
        line_kind(line) < 4,
        regex_captures(kind_pattern(line_kind(line)), line) == Some(Seq::<Groups>::empty()),
    ensures
        parse_lines_spec(a + seq![line] + b) == parse_lines_spec(a + b),
{
    assert forall|raw: RawModelView| #[trigger] parse_line_spec(raw, line) == Some(raw) by {
        assert(raw.vertices + Seq::<Triple>::empty() =~= raw.vertices);
        assert(raw.faces + Seq::<FaceIndices>::empty() =~= raw.faces);
        assert(raw.texture_vertices + Seq::<Pair>::empty() =~= raw.texture_vertices);
        assert(raw.vertice_normals + Seq::<Triple>::empty() =~= raw.vertice_normals);
        assert(collect_triples(Seq::<Groups>::empty()) == Some(Seq::<Triple>::empty()));
        assert(collect_pairs(Seq::<Groups>::empty()) == Some(Seq::<Pair>::empty()));
        assert(collect_faces(Seq::<Groups>::empty()) == Some(Seq::<FaceIndices>::empty()));
    }
    lemma_inert_line(a, line, b);
}

/// `raw` with the records of `more` appended, list by list.
pub open spec fn join(raw: RawModelView, more: RawModelView) -> RawModelView {
    RawModelView {
        vertices: raw.vertices + more.vertices,
        texture_vertices: raw.texture_vertices + more.texture_vertices,
        faces: raw.faces + more.faces,
        vertice_normals: raw.vertice_normals + more.vertice_normals,
    }
}

/// `d` has records in the list of kind `kind` at most (none at all for kind 4).
pub open spec fn only_kind(d: RawModelView, kind: int) -> bool {
    &&& kind != 0 ==> d.vertices.len() == 0
    &&& kind != 1 ==> d.faces.len() == 0
    &&& kind != 2 ==> d.texture_vertices.len() == 0
    &&& kind != 3 ==> d.vertice_normals.len() == 0
}

/// The lines of kind `kind`, in order.
pub open spec fn lines_of_kind(lines: Seq<Seq<char>>, kind: int) -> Seq<Seq<char>>
    decreases lines.len(),
{
    if lines.len() == 0 {
        Seq::empty()
    } else if line_kind(lines.last()) == kind {
        lines_of_kind(lines.drop_last(), kind).push(lines.last())
    } else {
        lines_of_kind(lines.drop_last(), kind)
    }
}

/// The raw model assembled kind by kind: the vertices of the vertex lines,
/// the faces of the face lines, and so on; `None` where a line of some kind
/// cannot be read.
pub open spec fn parse_by_kind(lines: Seq<Seq<char>>) -> Option<RawModelView> {
    match (
        parse_lines_spec(lines_of_kind(lines, 0)),
        parse_lines_spec(lines_of_kind(lines, 1)),
        parse_lines_spec(lines_of_kind(lines, 2)),
        parse_lines_spec(lines_of_kind(lines, 3)),
    ) {
        (Some(v), Some(f), Some(t), Some(n)) => Some(
            RawModelView {
                vertices: v.vertices,
                faces: f.faces,
                texture_vertices: t.texture_vertices,
                vertice_normals: n.vertice_normals,
            },
        ),
        _ => None,
    }
}

proof fn lemma_line_records(raw: RawModelView, line: Seq<char>)
    ensures
        parse_line_spec(raw, line) == match parse_line_spec(empty_raw(), line) {
            Some(d) => Some(join(raw, d)),
            None => None,
        },
        parse_line_spec(empty_raw(), line) matches Some(d) ==> only_kind(d, line_kind(line)),
{
    let e = empty_raw();
    assert(raw.vertices + Seq::<Triple>::empty() =~= raw.vertices);
    assert(raw.faces + Seq::<FaceIndices>::empty() =~= raw.faces);
    assert(raw.texture_vertices + Seq::<Pair>::empty() =~= raw.texture_vertices);
    assert(raw.vertice_normals + Seq::<Triple>::empty() =~= raw.vertice_normals);
    if let Some(d) = parse_line_spec(e, line) {
        assert(e.vertices + d.vertices =~= d.vertices) by {
            if line_kind(line) == 0 {
                let vs = collect_triples(regex_captures(VERTEX_PATTERN@, line)->0)->0;
                assert(Seq::<Triple>::empty() + vs =~= vs);
            }
        }
        assert(e.faces + d.faces =~= d.faces) by {
            if line_kind(line) == 1 {
                let fs = collect_faces(regex_captures(FACE_PATTERN@, line)->0)->0;
                assert(Seq::<FaceIndices>::empty() + fs =~= fs);
            }
        }
        assert(e.texture_vertices + d.texture_vertices =~= d.texture_vertices) by {
            if line_kind(line) == 2 {
                let ts = collect_pairs(regex_captures(TEXTURE_PATTERN@, line)->0)->0;
                assert(Seq::<Pair>::empty() + ts =~= ts);
            }
        }
        assert(e.vertice_normals + d.vertice_normals =~= d.vertice_normals) by {
            if line_kind(line) == 3 {
                let ns = collect_triples(regex_captures(NORMAL_PATTERN@, line)->0)->0;
                assert(Seq::<Triple>::empty() + ns =~= ns);
            }
        }
    }
}

proof fn lemma_parse_by_kind(lines: Seq<Seq<char>>)
    ensures
        parse_lines_spec(lines) == parse_by_kind(lines),
    decreases lines.len(),
{
    let e = empty_raw();
    if lines.len() == 0 {
        assert(lines_of_kind(lines, 0) == Seq::<Seq<char>>::empty());
        assert(parse_by_kind(lines) == Some(e));
    } else {
        let s = lines.drop_last();
        let l = lines.last();
        let j = line_kind(l);
        lemma_parse_by_kind(s);
        lemma_line_records(e, l);
        assert forall|k: int| 0 <= k < 4 && k != j implies #[trigger] lines_of_kind(lines, k) == lines_of_kind(s, k) by {}
        if j < 4 {
            let ks = lines_of_kind(s, j);
            assert(lines_of_kind(lines, j) == ks.push(l));
            assert(ks.push(l).drop_last() =~= ks);
            assert(parse_lines_spec(ks.push(l)) == parse_step(parse_lines_spec(ks), l));
            if let Some(y) = parse_lines_spec(ks) {
                lemma_line_records(y, l);
            }
        }
        if let Some(x) = parse_lines_spec(s) {
            lemma_line_records(x, l);
            if let Some(d) = parse_line_spec(e, l) {
                let jx = join(x, d);
                assert(jx.vertices =~= x.vertices + d.vertices);
                if j != 0 {
                    assert(jx.vertices =~= x.vertices);
                }
                if j != 1 {
                    assert(jx.faces =~= x.faces);
                }
                if j != 2 {
                    assert(jx.texture_vertices =~= x.texture_vertices);
                }
                if j != 3 {
                    assert(jx.vertice_normals =~= x.vertice_normals);
                }
            }
        }
    }
}

/// Only the order of the lines within each kind matters: files whose vertex
/// lines, face lines, texture vertex lines and vertex normal lines come in
/// the same order read the same, however the kinds are interleaved and
/// whatever other lines stand between them.
pub proof fn lemma_only_order_within_kinds_matters(s1: Seq<Seq<char>>, s2: Seq<Seq<char>>)
    requires
        forall|k: int| 0 <= k < 4 ==> #[trigger] lines_of_kind(s1, k) == lines_of_kind(s2, k),
    ensures
        parse_lines_spec(s1) == parse_lines_spec(s2),
{
    lemma_parse_by_kind(s1);
    lemma_parse_by_kind(s2);
    assert(lines_of_kind(s1, 0) == lines_of_kind(s2, 0));
    assert(lines_of_kind(s1, 1) == lines_of_kind(s2, 1));
    assert(lines_of_kind(s1, 2) == lines_of_kind(s2, 2));
    assert(lines_of_kind(s1, 3) == lines_of_kind(s2, 3));
}

/// Two adjacent lines of different kinds can be swapped: each kind of
/// record is kept in a list of its own, so only the order of lines of one
/// kind matters.
pub proof fn lemma_swap_lines_of_different_kinds(
    a: Seq<Seq<char>>,
    l1: Seq<char>,
    l2: Seq<char>,
    b: Seq<Seq<char>>,
)
    requires
        line_kind(l1) != line_kind(l2),
    ensures
        parse_lines_spec(a + seq![l1, l2] + b) == parse_lines_spec(a + seq![l2, l1] + b),
{
    let e = Some(empty_raw());
    lemma_parse_lines_append(e, a + seq![l1, l2], b);
    lemma_parse_lines_append(e, a + seq![l2, l1], b);
    lemma_parse_lines_append(e, a, seq![l1, l2]);
    lemma_parse_lines_append(e, a, seq![l2, l1]);
    let x = parse_lines_from(e, a);
    lemma_two_lines(x, l1, l2);
    lemma_two_lines(x, l2, l1);
    if let Some(raw) = x {
        lemma_steps_commute(raw, l1, l2);
    }
}

/// The records of an OBJ file: coordinate tokens and 1-based face indices,
/// in file order.
pub struct RawModel {
    /// `v x y z`
    pub vertices: Vec<(String, String, String)>,
    /// `vt u v`
    pub texture_vertices: Vec<(String, String)>,
    /// `f v/t.. v/t.. v/t..`: vertex indices, then texture vertex indices
    pub faces: Vec<((usize, usize, usize), (usize, usize, usize))>,
    /// `vn x y z`
    pub vertice_normals: Vec<(String, String, String)>,
}

impl View for RawModel {
    type V = RawModelView;

    open spec fn view(&self) -> RawModelView {
        RawModelView {
            vertices: self.vertices.deep_view(),
            texture_vertices: self.texture_vertices.deep_view(),
            faces: self.faces@,
            vertice_normals: self.vertice_normals.deep_view(),
        }
    }
}

fn group(groups: &Vec<Option<String>>, i: usize) -> (r: Option<String>)
    ensures
        r.deep_view() == group_token(groups.deep_view(), i as int),
{
    if i < groups.len() {
        match &groups[i] {
            Some(t) => Some(trim(t.as_str())),
            None => None,
        }
    } else {
        None
    }
}

fn triple(groups: &Vec<Option<String>>) -> (r: Option<(String, String, String)>)
    ensures
        r.deep_view() == triple_of(groups.deep_view()),
{
    match (group(groups, 1), group(groups, 2), group(groups, 3)) {
        (Some(a), Some(b), Some(c)) => Some((a, b, c)),
        _ => None,
    }
}

fn pair(groups: &Vec<Option<String>>) -> (r: Option<(String, String)>)
    ensures
        r.deep_view() == pair_of(groups.deep_view()),
{
    match (group(groups, 1), group(groups, 2)) {
        (Some(a), Some(b)) => Some((a, b)),
        _ => None,
    }
}

fn index(groups: &Vec<Option<String>>, i: usize) -> (r: Option<usize>)
    ensures
        r == index_of(groups.deep_view(), i as int),
{
    match group(groups, i) {
        Some(t) => parse_usize(t.as_str()),
        None => None,
    }
}

fn face(groups: &Vec<Option<String>>) -> (r: Option<((usize, usize, usize), (usize, usize, usize))>)
    ensures
        r == face_of(groups.deep_view()),
{
    match (index(groups, 1), index(groups, 2), index(groups, 3), index(groups, 4), index(groups, 5), index(groups, 6)) {
        (Some(v0), Some(t0), Some(v1), Some(t1), Some(v2), Some(t2)) => Some(((v0, v1, v2), (t0, t1, t2))),
        _ => None,
    }
}

fn push_triples(ms: &Vec<Vec<Option<String>>>, out: &mut Vec<(String, String, String)>) -> (ok: bool)
    ensures
        ok == collect_triples(ms.deep_view()) is Some,
        ok ==> final(out).deep_view() == old(out).deep_view() + collect_triples(ms.deep_view())->0,
{
    let n = ms.len();
    let ghost start = out.deep_view();
    for i in 0..n
        invariant
            n == ms.deep_view().len(),
            start == old(out).deep_view(),
            out.deep_view() =~= start + Seq::new(i as nat, |j: int| triple_of(ms.deep_view()[j])->0),
            forall|j: int| 0 <= j < i ==> (#[trigger] triple_of(ms.deep_view()[j])) is Some,
    {
        assert(ms.deep_view()[i as int] == ms@[i as int].deep_view());
        let ghost before = out.deep_view();
        match triple(&ms[i]) {
            Some(t) => {
                out.push(t);
                assert(out.deep_view() =~= before.push(t.deep_view()));
            },
            None => {
                return false;
            },
        }
    }
    true
}

fn push_pairs(ms: &Vec<Vec<Option<String>>>, out: &mut Vec<(String, String)>) -> (ok: bool)
    ensures
        ok == collect_pairs(ms.deep_view()) is Some,
        ok ==> final(out).deep_view() == old(out).deep_view() + collect_pairs(ms.deep_view())->0,
{
    let n = ms.len();
    let ghost start = out.deep_view();
    for i in 0..n
        invariant
            n == ms.deep_view().len(),
            start == old(out).deep_view(),
            out.deep_view() =~= start + Seq::new(i as nat, |j: int| pair_of(ms.deep_view()[j])->0),
            forall|j: int| 0 <= j < i ==> (#[trigger] pair_of(ms.deep_view()[j])) is Some,
    {
        assert(ms.deep_view()[i as int] == ms@[i as int].deep_view());
        let ghost before = out.deep_view();
        match pair(&ms[i]) {
            Some(t) => {
                out.push(t);
                assert(out.deep_view() =~= before.push(t.deep_view()));
            },
            None => {
                return false;
            },
        }
    }
    true
}

fn push_faces(
    ms: &Vec<Vec<Option<String>>>,
    out: &mut Vec<((usize, usize, usize), (usize, usize, usize))>,
) -> (ok: bool)
    ensures
        ok == collect_faces(ms.deep_view()) is Some,
        ok ==> final(out)@ == old(out)@ + collect_faces(ms.deep_view())->0,
{
    let n = ms.len();
    let ghost start = out@;
    for i in 0..n
        invariant
            n == ms.deep_view().len(),
            start == old(out)@,
            out@ =~= start + Seq::new(i as nat, |j: int| face_of(ms.deep_view()[j])->0),
            forall|j: int| 0 <= j < i ==> (#[trigger] face_of(ms.deep_view()[j])) is Some,
    {
        assert(ms.deep_view()[i as int] == ms@[i as int].deep_view());
        match face(&ms[i]) {
            Some(f) => {
                out.push(f);
            },
            None => {
                return false;
            },
        }
    }
    true
}

fn add_matches(raw: &mut RawModel, kind: u8, ms: &Vec<Vec<Option<String>>>) -> (ok: bool)
    ensures
        ok == add_matches_spec(old(raw)@, kind as int, ms.deep_view()) is Some,
        ok ==> final(raw)@ == add_matches_spec(old(raw)@, kind as int, ms.deep_view())->0,
{
    if kind == 0 {
        push_triples(ms, &mut raw.vertices)
    } else if kind == 1 {
        push_faces(ms, &mut raw.faces)
    } else if kind == 2 {
        push_pairs(ms, &mut raw.texture_vertices)
    } else if kind == 3 {
        push_triples(ms, &mut raw.vertice_normals)
    } else {
        true
    }
}

/// The records that the matches `ms` of a line of kind `kind` (see
/// [`line_kind`]) hold, as a raw model of their own; `None` where a match
/// lacks a group or, for a face, an index that reads as a `usize`.
pub fn match_records(kind: u8, ms: &Vec<Vec<Option<String>>>) -> (r: Option<RawModel>)
    ensures
        r is Some <==> add_matches_spec(empty_raw(), kind as int, ms.deep_view()) is Some,
        r matches Some(m) ==> add_matches_spec(empty_raw(), kind as int, ms.deep_view()) == Some(m@),
{
    let mut raw = RawModel {
        vertices: Vec::new(),
        texture_vertices: Vec::new(),
        faces: Vec::new(),
        vertice_normals: Vec::new(),
    };
    assert(raw@.vertices =~= Seq::empty() && raw@.texture_vertices =~= Seq::empty() && raw@.faces =~= Seq::empty()
        && raw@.vertice_normals =~= Seq::empty());
    assert(raw@ == empty_raw());
    if add_matches(&mut raw, kind, ms) {
        Some(raw)
    } else {
        None
    }
}

fn kind_of_line(line: &str) -> (kind: u8)
    ensures
        kind == line_kind(line@),
{
    let n = line.unicode_len();
    if starts_with(line, n, &['v', ' ']) {
        assert(seq!['v', ' '] =~= ['v', ' ']@);
        0
    } else if starts_with(line, n, &['f', ' ']) {
        assert(seq!['f', ' '] =~= ['f', ' ']@);
        1
    } else if starts_with(line, n, &['v', 't', ' ']) {
        assert(seq!['v', 't', ' '] =~= ['v', 't', ' ']@);
        2
    } else if starts_with(line, n, &['v', 'n', ' ']) {
        assert(seq!['v', 'n', ' '] =~= ['v', 'n', ' ']@);
        3
    } else {
        assert(seq!['v', ' '] =~= ['v', ' ']@);
        assert(seq!['f', ' '] =~= ['f', ' ']@);
        assert(seq!['v', 't', ' '] =~= ['v', 't', ' ']@);
        assert(seq!['v', 'n', ' '] =~= ['v', 'n', ' ']@);
        4
    }
}

fn pattern_of_kind(kind: u8) -> (p: &'static str)
    requires
        kind < 4,
    ensures
        p@ == kind_pattern(kind as int),
{
    if kind == 0 {
        VERTEX_PATTERN
    } else if kind == 1 {
        FACE_PATTERN
    } else if kind == 2 {
        TEXTURE_PATTERN
    } else {
        NORMAL_PATTERN
    }
}

/// Adds the records of one line to `raw`; `false`, with `raw` in an unstated
/// state, where the line cannot be read.
fn parse_line(line: &str, raw: &mut RawModel) -> (ok: bool)
    ensures
        ok == parse_line_spec(old(raw)@, line@) is Some,
        ok ==> final(raw)@ == parse_line_spec(old(raw)@, line@)->0,
{
    let kind = kind_of_line(line);
    if kind == 4 {
        return true;
    }
    match captures_all(pattern_of_kind(kind), line) {
        Some(ms) => add_matches(raw, kind, &ms),
        None => false,
    }
}

proof fn lemma_parse_lines_stays_failed(lines: Seq<Seq<char>>, i: int)
    requires
        0 <= i <= lines.len(),
        parse_lines_spec(lines.take(i)) is None,
    ensures
        parse_lines_spec(lines) is None,
    decreases lines.len() - i,
{
    if i < lines.len() {
        assert(lines.take(i + 1).drop_last() =~= lines.take(i));
        lemma_parse_lines_stays_failed(lines, i + 1);
    } else {
        assert(lines.take(i) =~= lines);
    }
}

/// Reads the lines of an OBJ file into a raw model; `None` exactly where a
/// line cannot be read (see [`parse_line_spec`]).
pub fn parse_obj_lines(lines: &Vec<String>) -> (r: Option<RawModel>)
    ensures
        match r {
            Some(raw) => parse_lines_spec(lines.deep_view()) == Some(raw@),
            None => parse_lines_spec(lines.deep_view()) is None,
        },
{
    let mut raw = RawModel {
        vertices: Vec::new(),
        texture_vertices: Vec::new(),
        faces: Vec::new(),
        vertice_normals: Vec::new(),
    };
    assert(raw@.vertices =~= Seq::empty() && raw@.texture_vertices =~= Seq::empty()
        && raw@.vertice_normals =~= Seq::empty());
    let n = lines.len();
    assert(lines.deep_view().take(0) =~= Seq::<Seq<char>>::empty());
    for i in 0..n
        invariant
            n == lines.deep_view().len(),
            parse_lines_spec(lines.deep_view().take(i as int)) == Some(raw@),
    {
        let ghost all = lines.deep_view();
        assert(all.take(i + 1).drop_last() =~= all.take(i as int));
        assert(all.take(i + 1).last() == lines@[i as int]@);
        if !parse_line(lines[i].as_str(), &mut raw) {
            proof {
                lemma_parse_lines_stays_failed(all, i + 1);
            }
            return None;
        }
    }
    assert(lines.deep_view().take(n as int) =~= lines.deep_view());
    Some(raw)
}

/// What a resolved model holds: for each face, the coordinates of its three
/// corners, their normals and their texture coordinates.
pub struct ModelView {
    pub faces: Seq<Seq<Triple>>,
    pub face_normals: Seq<Seq<Triple>>,
    pub face_texture_vertices: Seq<Seq<Pair>>,
}

/// The 1-based index `i` points into a list of `len` items.
pub open spec fn in_range(i: usize, len: nat) -> bool {
    1 <= i <= len
}

/// Every face of `raw` names vertices, vertex normals and texture vertices
/// that it lists. A face's normals are looked up by its vertex indices.
pub open spec fn indices_in_range(raw: RawModelView) -> bool {
    forall|i: int|
        0 <= i < raw.faces.len() ==> {
            let ((v0, v1, v2), (t0, t1, t2)) = #[trigger] raw.faces[i];
            &&& in_range(v0, raw.vertices.len()) && in_range(v1, raw.vertices.len()) && in_range(
                v2,
                raw.vertices.len(),
            )
            &&& in_range(v0, raw.vertice_normals.len()) && in_range(v1, raw.vertice_normals.len())
                && in_range(v2, raw.vertice_normals.len())
            &&& in_range(t0, raw.texture_vertices.len()) && in_range(t1, raw.texture_vertices.len())
                && in_range(t2, raw.texture_vertices.len())
        }
}

/// The model of `raw`: face `i` has the vertices, the vertex normals (at the
/// vertex indices) and the texture vertices that its 1-based indices name.
pub open spec fn resolve(raw: RawModelView) -> ModelView {
    ModelView {
        faces: Seq::new(
            raw.faces.len(),
            |i: int|
                {
                    let (v, t) = raw.faces[i];
                    seq![raw.vertices[v.0 - 1], raw.vertices[v.1 - 1], raw.vertices[v.2 - 1]]
                },
        ),
        face_normals: Seq::new(
            raw.faces.len(),
            |i: int|
                {
                    let (v, t) = raw.faces[i];
                    seq![
                        raw.vertice_normals[v.0 - 1],
                        raw.vertice_normals[v.1 - 1],
                        raw.vertice_normals[v.2 - 1],
                    ]
                },
        ),
        face_texture_vertices: Seq::new(
            raw.faces.len(),
            |i: int|
                {
                    let (v, t) = raw.faces[i];
                    seq![
                        raw.texture_vertices[t.0 - 1],
                        raw.texture_vertices[t.1 - 1],
                        raw.texture_vertices[t.2 - 1],
                    ]
                },
        ),
    }
}

/// Each corner of each face takes its vertex and its normal from the vertex
/// index written for that corner, and its texture coordinates from the
/// texture vertex index written for that corner (indices count from 1): a
/// face line `f a/x b/y c/z` gives corners `[v_a, v_b, v_c]`, normals
/// `[vn_a, vn_b, vn_c]` and texture coordinates `[vt_x, vt_y, vt_z]`.
pub proof fn lemma_corners_follow_their_indices(raw: RawModelView, i: int)
    requires
        indices_in_range(raw),
        0 <= i < raw.faces.len(),
    ensures
        resolve(raw).faces.len() == raw.faces.len(),
        resolve(raw).face_normals.len() == raw.faces.len(),
        resolve(raw).face_texture_vertices.len() == raw.faces.len(),
        resolve(raw).faces[i].len() == 3,
        resolve(raw).face_normals[i].len() == 3,
        resolve(raw).face_texture_vertices[i].len() == 3,
        resolve(raw).faces[i][0] == raw.vertices[raw.faces[i].0.0 - 1],
        resolve(raw).faces[i][1] == raw.vertices[raw.faces[i].0.1 - 1],
        resolve(raw).faces[i][2] == raw.vertices[raw.faces[i].0.2 - 1],
        resolve(raw).face_normals[i][0] == raw.vertice_normals[raw.faces[i].0.0 - 1],
        resolve(raw).face_normals[i][1] == raw.vertice_normals[raw.faces[i].0.1 - 1],
        resolve(raw).face_normals[i][2] == raw.vertice_normals[raw.faces[i].0.2 - 1],
        resolve(raw).face_texture_vertices[i][0] == raw.texture_vertices[raw.faces[i].1.0 - 1],
        resolve(raw).face_texture_vertices[i][1] == raw.texture_vertices[raw.faces[i].1.1 - 1],
        resolve(raw).face_texture_vertices[i][2] == raw.texture_vertices[raw.faces[i].1.2 - 1],
{
}

/// A face is refused only for an index outside the list that index points
/// into: vertex indices must lie in `1..=` the number of vertices and of
/// normals, texture indices in `1..=` the number of texture vertices, and
/// nothing else about the lists' lengths matters.
pub proof fn lemma_faces_checked_against_their_own_lists(raw: RawModelView)
    ensures
        indices_in_range(raw) <==> forall|i: int|
            #![trigger raw.faces[i]]
            0 <= i < raw.faces.len() ==> {
                &&& 1 <= raw.faces[i].0.0 <= raw.vertices.len()
                &&& 1 <= raw.faces[i].0.1 <= raw.vertices.len()
                &&& 1 <= raw.faces[i].0.2 <= raw.vertices.len()
                &&& raw.faces[i].0.0 <= raw.vertice_normals.len()
                &&& raw.faces[i].0.1 <= raw.vertice_normals.len()
                &&& raw.faces[i].0.2 <= raw.vertice_normals.len()
                &&& 1 <= raw.faces[i].1.0 <= raw.texture_vertices.len()
                &&& 1 <= raw.faces[i].1.1 <= raw.texture_vertices.len()
                &&& 1 <= raw.faces[i].1.2 <= raw.texture_vertices.len()
            },
{
}

/// A model as triangles: each face's three corners, the normal at each
/// corner, and the texture coordinates of each corner, all as the tokens the
/// file wrote.
pub struct Model {
    /// The corners of each face.
    pub faces: Vec<[(String, String, String); 3]>,
    /// The normal at each corner of each face.
    pub face_normals: Vec<[(String, String, String); 3]>,
    /// The texture coordinates of each corner of each face.
    pub face_texture_vertices: Vec<[(String, String); 3]>,
}

impl View for Model {
    type V = ModelView;

    open spec fn view(&self) -> ModelView {
        ModelView {
            faces: self.faces.deep_view(),
            face_normals: self.face_normals.deep_view(),
            face_texture_vertices: self.face_texture_vertices.deep_view(),
        }
    }
}

fn copy_triple(t: &(String, String, String)) -> (r: (String, String, String))
    ensures
        r.deep_view() == t.deep_view(),
{
    (t.0.clone(), t.1.clone(), t.2.clone())
}

fn copy_pair(t: &(String, String)) -> (r: (String, String))
    ensures
        r.deep_view() == t.deep_view(),
{
    (t.0.clone(), t.1.clone())
}

impl RawModel {
    /// Whether every face names vertices, vertex normals and texture
    /// vertices that the model lists.
    pub fn indices_in_range(&self) -> (r: bool)
        ensures
            r == indices_in_range(self@),
    {
        let nv = self.vertices.len();
        let nn = self.vertice_normals.len();
        let nt = self.texture_vertices.len();
        let n = self.faces.len();
        for i in 0..n
            invariant
                n == self.faces@.len(),
                nv == self@.vertices.len(),
                nn == self@.vertice_normals.len(),
                nt == self@.texture_vertices.len(),
                forall|j: int| 0 <= j < i ==> {
                    let ((v0, v1, v2), (t0, t1, t2)) = #[trigger] self@.faces[j];
                    &&& in_range(v0, nv as nat) && in_range(v1, nv as nat) && in_range(v2, nv as nat)
                    &&& in_range(v0, nn as nat) && in_range(v1, nn as nat) && in_range(v2, nn as nat)
                    &&& in_range(t0, nt as nat) && in_range(t1, nt as nat) && in_range(t2, nt as nat)
                },
        {
            let ((v0, v1, v2), (t0, t1, t2)) = self.faces[i];
            let ok_v = 1 <= v0 && v0 <= nv && 1 <= v1 && v1 <= nv && 1 <= v2 && v2 <= nv;
            let ok_n = 1 <= v0 && v0 <= nn && 1 <= v1 && v1 <= nn && 1 <= v2 && v2 <= nn;
            let ok_t = 1 <= t0 && t0 <= nt && 1 <= t1 && t1 <= nt && 1 <= t2 && t2 <= nt;
            if !(ok_v && ok_n && ok_t) {
                assert(!indices_in_range(self@)) by {
                    let _ = self@.faces[i as int];
                }
                return false;
            }
        }
        true
    }
}

impl Model {
    /// Resolves the faces of `raw` into triangles. Every index must name an
    /// item that `raw` lists.
    pub fn from_raw(raw: RawModel) -> (model: Model)
        requires
            indices_in_range(raw@),
        ensures
            model@ == resolve(raw@),
    {
        let n = raw.faces.len();
        let mut faces: Vec<[(String, String, String); 3]> = Vec::new();
        let mut face_normals: Vec<[(String, String, String); 3]> = Vec::new();
        let mut face_texture_vertices: Vec<[(String, String); 3]> = Vec::new();
        for i in 0..n
            invariant
                n == raw@.faces.len(),
                indices_in_range(raw@),
                faces.deep_view() =~= resolve(raw@).faces.take(i as int),
                face_normals.deep_view() =~= resolve(raw@).face_normals.take(i as int),
                face_texture_vertices.deep_view() =~= resolve(raw@).face_texture_vertices.take(i as int),
        {
            let ((v0, v1, v2), (t0, t1, t2)) = raw.faces[i];
            assert(raw@.faces[i as int] == ((v0, v1, v2), (t0, t1, t2)));
            let ghost f0 = faces.deep_view();
            let ghost n0 = face_normals.deep_view();
            let ghost x0 = face_texture_vertices.deep_view();
            let corners = [
                copy_triple(&raw.vertices[v0 - 1]),
                copy_triple(&raw.vertices[v1 - 1]),
                copy_triple(&raw.vertices[v2 - 1]),
            ];
            let normals = [
                copy_triple(&raw.vertice_normals[v0 - 1]),
                copy_triple(&raw.vertice_normals[v1 - 1]),
                copy_triple(&raw.vertice_normals[v2 - 1]),
            ];
            let texels = [
                copy_pair(&raw.texture_vertices[t0 - 1]),
                copy_pair(&raw.texture_vertices[t1 - 1]),
                copy_pair(&raw.texture_vertices[t2 - 1]),
            ];
            assert(corners.deep_view() =~= resolve(raw@).faces[i as int]);
            assert(normals.deep_view() =~= resolve(raw@).face_normals[i as int]);
            assert(texels.deep_view() =~= resolve(raw@).face_texture_vertices[i as int]);
            faces.push(corners);
            face_normals.push(normals);
            face_texture_vertices.push(texels);
            assert(faces.deep_view() =~= f0.push(corners.deep_view()));
            assert(face_normals.deep_view() =~= n0.push(normals.deep_view()));
            assert(face_texture_vertices.deep_view() =~= x0.push(texels.deep_view()));
        }
        assert(resolve(raw@).faces.take(n as int) =~= resolve(raw@).faces);
        assert(resolve(raw@).face_normals.take(n as int) =~= resolve(raw@).face_normals);
        assert(resolve(raw@).face_texture_vertices.take(n as int) =~= resolve(raw@).face_texture_vertices);
        Model { faces, face_normals, face_texture_vertices }
    }
}

/// The lines of an OBJ file can all be read, and every face names items the
/// file lists.
pub open spec fn well_formed_obj(lines: Seq<Seq<char>>) -> bool {
    parse_lines_spec(lines) matches Some(raw) && indices_in_range(raw)
}

/// The model of an OBJ file given as its lines, which must all be readable
/// with every face naming items the file lists (see [`try_parse_obj_file`]
/// for a reader that tests this).
pub fn parse_obj_file(lines: &Vec<String>) -> (model: Model)
    requires
        well_formed_obj(lines.deep_view()),
    ensures
        parse_lines_spec(lines.deep_view()) matches Some(raw) && model@ == resolve(raw),
{
    let raw = parse_obj_lines(lines).unwrap();
    Model::from_raw(raw)
}

/// The model of an OBJ file given as its lines: `None` where a line cannot be
/// read or a face names an item the file does not list.
pub fn try_parse_obj_file(lines: &Vec<String>) -> (r: Option<Model>)
    ensures
        r is Some <==> well_formed_obj(lines.deep_view()),
        r matches Some(m) ==> (parse_lines_spec(lines.deep_view()) matches Some(raw) && m@ == resolve(raw)),
{
    match parse_obj_lines(lines) {
        Some(raw) => {
            if raw.indices_in_range() {
                Some(parse_obj_file(lines))
            } else {
                None
            }
        },
        None => None,
    }
}

} // verus!
