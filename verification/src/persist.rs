use vstd::prelude::*;

use crate::editor_model::{
    any_char, collection_name_in, collection_prefix, collection_text, existing_map_name, is_control,
    lines_text, map_name_result, map_text, maps_text, NameError,
};
use crate::level::{
    flush, grid_line, has_prefix, is_level_char, pack_levels, pack_start, pack_step, pack_step_fn,
    split_lines_from, strip_cr, text_lines, title_of, title_prefix, PackState, RawLevelModel,
};
use crate::text::{is_space, trim, trim_end, trim_start};

verus! {

/// A line that reads back as itself: no line break, and no carriage
/// return at its end.
pub open spec fn plain_line(l: Seq<char>) -> bool {
    &&& forall|i: int| 0 <= i < l.len() ==> #[trigger] l[i] != '\n'
    &&& !(l.len() > 0 && l.last() == '\r')
}

proof fn lemma_split_shift(p: Seq<char>, y: Seq<char>, j: int, cur: Seq<char>, acc: Seq<Seq<char>>)
    requires
        0 <= j <= y.len(),
    ensures
        split_lines_from(p + y, p.len() + j, cur, acc) == split_lines_from(y, j, cur, acc),
    decreases y.len() - j,
{
    let s = p + y;
    if j < y.len() {
        assert(s[p.len() + j] == y[j]);
        if y[j] == '\n' {
            lemma_split_shift(p, y, j + 1, Seq::empty(), acc.push(strip_cr(cur)));
        } else {
            lemma_split_shift(p, y, j + 1, cur.push(y[j]), acc);
        }
    }
}

proof fn lemma_split_line(s: Seq<char>, i: int, k: int, cur: Seq<char>, acc: Seq<Seq<char>>)
    requires
        0 <= i,
        0 <= k,
        i + k < s.len(),
        forall|t: int| i <= t < i + k ==> #[trigger] s[t] != '\n',
        s[i + k] == '\n',
    ensures
        split_lines_from(s, i, cur, acc) == split_lines_from(s, i + k + 1, Seq::empty(), acc.push(strip_cr(cur + s.subrange(i, i + k)))),
    decreases k,
{
    if k == 0 {
        assert(cur + s.subrange(i, i) =~= cur);
    } else {
        lemma_split_line(s, i + 1, k - 1, cur.push(s[i]), acc);
        assert(cur.push(s[i]) + s.subrange(i + 1, i + k) =~= cur + s.subrange(i, i + k));
    }
}

proof fn lemma_strip_plain(l: Seq<char>)
    requires
        plain_line(l),
    ensures
        strip_cr(l) == l,
{
}

/// Splitting the text of plain lines followed by `rest`.
proof fn lemma_split_lines_text(ls: Seq<Seq<char>>, rest: Seq<char>, acc: Seq<Seq<char>>)
    requires
        forall|i: int| 0 <= i < ls.len() ==> plain_line(#[trigger] ls[i]),
    ensures
        split_lines_from(lines_text(ls) + rest, 0, Seq::empty(), acc) == split_lines_from(rest, 0, Seq::empty(), acc + ls),
    decreases ls.len(),
{
    if ls.len() == 0 {
        assert(lines_text(ls) + rest =~= rest);
        assert(acc + ls =~= acc);
    } else {
        let init = ls.drop_last();
        let l = ls.last();
        assert(plain_line(l)) by {
            assert(l == ls[ls.len() - 1]);
        }
        let rest2 = l.push('\n') + rest;
        assert forall|i: int| 0 <= i < init.len() implies plain_line(#[trigger] init[i]) by {
            assert(init[i] == ls[i]);
        }
        lemma_split_lines_text(init, rest2, acc);
        assert(lines_text(ls) + rest =~= lines_text(init) + rest2);
        // the first line of rest2 is l
        let s = rest2;
        assert forall|t: int| 0 <= t < l.len() implies #[trigger] s[t] != '\n' by {
            assert(s[t] == l[t]);
        }
        assert(s[l.len() as int] == '\n');
        lemma_split_line(s, 0, l.len() as int, Seq::empty(), acc + init);
        assert(Seq::<char>::empty() + s.subrange(0, l.len() as int) =~= l);
        lemma_strip_plain(l);
        lemma_split_shift(l.push('\n'), rest, 0, Seq::empty(), (acc + init).push(l));
        assert(l.push('\n') + rest == s);
        assert((acc + init).push(l) =~= acc + ls);
    }
}

/// The lines of the text of plain lines are those lines.
pub proof fn lemma_text_lines_of_lines_text(ls: Seq<Seq<char>>)
    requires
        forall|i: int| 0 <= i < ls.len() ==> plain_line(#[trigger] ls[i]),
    ensures
        text_lines(lines_text(ls)) == ls,
{
    lemma_split_lines_text(ls, Seq::empty(), Seq::empty());
    assert(lines_text(ls) + Seq::<char>::empty() =~= lines_text(ls));
    assert(Seq::<Seq<char>>::empty() + ls =~= ls);
}

/// The text of two runs of lines is the text of the first run followed by
/// that of the second.
pub proof fn lemma_lines_text_append(a: Seq<Seq<char>>, b: Seq<Seq<char>>)
    ensures
        lines_text(a + b) == lines_text(a) + lines_text(b),
    decreases b.len(),
{
    if b.len() == 0 {
        assert(a + b =~= a);
        assert(lines_text(a) + lines_text(b) =~= lines_text(a));
    } else {
        lemma_lines_text_append(a, b.drop_last());
        assert((a + b).drop_last() =~= a + b.drop_last());
        assert((a + b).last() == b.last());
        assert(lines_text(a + b) =~= lines_text(a) + lines_text(b));
    }
}


// ---------------------------------------------------------------- trimming

proof fn lemma_trim_start_keeps(s: Seq<char>, p: spec_fn(char) -> bool)
    requires
        forall|i: int| 0 <= i < s.len() ==> p(#[trigger] s[i]),
    ensures
        forall|i: int| 0 <= i < trim_start(s).len() ==> p(#[trigger] trim_start(s)[i]),
    decreases s.len(),
{
    if s.len() > 0 && is_space(s[0]) {
        let t = s.drop_first();
        assert forall|i: int| 0 <= i < t.len() implies p(#[trigger] t[i]) by {
            assert(t[i] == s[i + 1]);
        }
        lemma_trim_start_keeps(t, p);
        assert(trim_start(s) == trim_start(t));
    } else {
        assert(trim_start(s) == s);
    }
}

proof fn lemma_trim_end_keeps(s: Seq<char>, p: spec_fn(char) -> bool)
    requires
        forall|i: int| 0 <= i < s.len() ==> p(#[trigger] s[i]),
    ensures
        forall|i: int| 0 <= i < trim_end(s).len() ==> p(#[trigger] trim_end(s)[i]),
    decreases s.len(),
{
    if s.len() > 0 && is_space(s.last()) {
        let t = s.drop_last();
        assert forall|i: int| 0 <= i < t.len() implies p(#[trigger] t[i]) by {
            assert(t[i] == s[i]);
        }
        lemma_trim_end_keeps(t, p);
        assert(trim_end(s) == trim_end(t));
    } else {
        assert(trim_end(s) == s);
    }
}

/// Every character of `trim(s)` is one that all characters of `s` share.
proof fn lemma_trim_keeps(s: Seq<char>, p: spec_fn(char) -> bool)
    requires
        forall|i: int| 0 <= i < s.len() ==> p(#[trigger] s[i]),
    ensures
        forall|i: int| 0 <= i < trim(s).len() ==> p(#[trigger] trim(s)[i]),
{
    lemma_trim_start_keeps(s, p);
    lemma_trim_end_keeps(trim_start(s), p);
}

proof fn lemma_trim_start_len(s: Seq<char>)
    ensures
        trim_start(s).len() <= s.len(),
        trim_start(s).len() == s.len() ==> trim_start(s) == s,
    decreases s.len(),
{
    if s.len() > 0 && is_space(s[0]) {
        lemma_trim_start_len(s.drop_first());
    }
}

proof fn lemma_trim_end_len(s: Seq<char>)
    ensures
        trim_end(s).len() <= s.len(),
        trim_end(s).len() == s.len() ==> trim_end(s) == s,
    decreases s.len(),
{
    if s.len() > 0 && is_space(s.last()) {
        lemma_trim_end_len(s.drop_last());
    }
}

/// A text equal to its trimmed form begins and ends with a non-space.
proof fn lemma_trimmed_ends(s: Seq<char>)
    requires
        trim(s) == s,
        s.len() > 0,
    ensures
        !is_space(s[0]),
        !is_space(s.last()),
{
    lemma_trim_start_len(s);
    lemma_trim_end_len(trim_start(s));
    if is_space(s[0]) {
        lemma_trim_start_len(s.drop_first());
        assert(trim_start(s).len() < s.len());
    }
    let t = trim_start(s);
    assert(t == s);
    if is_space(s.last()) {
        lemma_trim_end_len(s.drop_last());
        assert(trim_end(s).len() < s.len());
    }
}

/// A text that begins and ends with a non-space is its own trimmed form.
proof fn lemma_trim_same(s: Seq<char>)
    requires
        s.len() > 0,
        !is_space(s[0]),
        !is_space(s.last()),
    ensures
        trim(s) == s,
{
}

/// A valid name: trimmed, not empty, and free of control characters.
pub open spec fn clean_name(n: Seq<char>) -> bool {
    &&& n.len() > 0
    &&& trim(n) == n
    &&& !any_char(n, |c: char| is_control(c))
}

proof fn lemma_clean_name(n: Seq<char>)
    requires
        clean_name(n),
    ensures
        !is_space(n[0]),
        !is_space(n.last()),
        forall|i: int| 0 <= i < n.len() ==> #[trigger] n[i] != '\n' && n[i] != '\r',
        trim(seq![' '] + n) == n,
{
    lemma_trimmed_ends(n);
    assert forall|i: int| 0 <= i < n.len() implies #[trigger] n[i] != '\n' && n[i] != '\r' by {
        if n[i] == '\n' || n[i] == '\r' {
            assert((|c: char| is_control(c))(n[i]));
        }
    }
    let sn = seq![' '] + n;
    assert(sn.drop_first() =~= n);
    assert(trim_start(sn) == trim_start(n));
    assert(sn.last() == n.last());
}

// ---------------------------------------------------------------- the lines of a saved file

pub open spec fn title_line(name: Seq<char>) -> Seq<char> {
    "Title: "@ + name
}

pub open spec fn collection_line(name: Seq<char>) -> Seq<char> {
    "Collection: "@ + name
}

/// The lines of one saved map: its rows, its title line and a blank line.
pub open spec fn map_lines(m: (Seq<char>, Seq<Seq<char>>)) -> Seq<Seq<char>> {
    m.1 + seq![title_line(m.0), Seq::empty()]
}

pub open spec fn maps_lines(maps: Seq<(Seq<char>, Seq<Seq<char>>)>) -> Seq<Seq<char>>
    decreases maps.len(),
{
    if maps.len() == 0 {
        Seq::empty()
    } else {
        maps_lines(maps.drop_last()) + map_lines(maps.last())
    }
}

/// The lines of a saved collection file.
pub open spec fn file_lines(name: Seq<char>, maps: Seq<(Seq<char>, Seq<Seq<char>>)>) -> Seq<Seq<char>> {
    seq![collection_line(name), Seq::empty()] + maps_lines(maps)
}

proof fn lemma_maps_text(maps: Seq<(Seq<char>, Seq<Seq<char>>)>)
    ensures
        maps_text(maps) == lines_text(maps_lines(maps)),
    decreases maps.len(),
{
    if maps.len() > 0 {
        lemma_maps_text(maps.drop_last());
        let m = maps.last();
        lemma_lines_text_append(maps_lines(maps.drop_last()), map_lines(m));
        lemma_lines_text_append(m.1, seq![title_line(m.0), Seq::empty()]);
        let two = seq![title_line(m.0), Seq::<char>::empty()];
        assert(two.drop_last() =~= seq![title_line(m.0)]);
        assert(seq![title_line(m.0)].drop_last() =~= Seq::<Seq<char>>::empty());
        assert(lines_text(Seq::<Seq<char>>::empty()) == Seq::<char>::empty());
        assert(seq![title_line(m.0)].last() == title_line(m.0));
        assert(lines_text(seq![title_line(m.0)]) =~= title_line(m.0).push('\n'));
        assert(two.last() == Seq::<char>::empty());
        assert(lines_text(two) =~= title_line(m.0).push('\n') + seq!['\n']);
        assert(map_text(m) =~= lines_text(map_lines(m)));
    }
}

proof fn lemma_collection_text(name: Seq<char>, maps: Seq<(Seq<char>, Seq<Seq<char>>)>)
    ensures
        collection_text(name, maps) == lines_text(file_lines(name, maps)),
{
    lemma_maps_text(maps);
    let head = seq![collection_line(name), Seq::<char>::empty()];
    lemma_lines_text_append(head, maps_lines(maps));
    assert(head.drop_last() =~= seq![collection_line(name)]);
    assert(seq![collection_line(name)].drop_last() =~= Seq::<Seq<char>>::empty());
    assert(lines_text(Seq::<Seq<char>>::empty()) == Seq::<char>::empty());
    assert(seq![collection_line(name)].last() == collection_line(name));
    assert(lines_text(seq![collection_line(name)]) =~= collection_line(name).push('\n'));
    assert(head.last() == Seq::<char>::empty());
    assert(lines_text(head) =~= collection_line(name).push('\n') + seq!['\n']);
    assert(collection_text(name, maps) =~= lines_text(file_lines(name, maps)));
}


// ---------------------------------------------------------------- reading the lines back

/// A map that saving and reading keeps as it is: a valid name as its own
/// checked form, at least one row, and rows that are non-blank grid lines.
pub open spec fn savable_map(m: (Seq<char>, Seq<Seq<char>>)) -> bool {
    &&& map_name_result(m.0) == Ok::<Seq<char>, NameError>(m.0)
    &&& m.1.len() > 0
    &&& forall|i: int| 0 <= i < m.1.len() ==> grid_line(#[trigger] m.1[i]) && trim(m.1[i]).len() > 0
}

/// The levels that reading gives for saved maps.
pub open spec fn maps_model(maps: Seq<(Seq<char>, Seq<Seq<char>>)>) -> Seq<RawLevelModel> {
    maps.map_values(|m: (Seq<char>, Seq<Seq<char>>)| (Some(m.0), m.1))
}

proof fn lemma_fold_append(a: Seq<Seq<char>>, b: Seq<Seq<char>>, st: PackState)
    ensures
        (a + b).fold_left(st, pack_step_fn()) == b.fold_left(a.fold_left(st, pack_step_fn()), pack_step_fn()),
{
    let ab = a + b;
    ab.lemma_fold_left_split(st, pack_step_fn(), a.len() as int);
    assert(ab.subrange(0, a.len() as int) =~= a);
    assert(ab.subrange(a.len() as int, ab.len() as int) =~= b);
}

proof fn lemma_name_clean(n: Seq<char>)
    requires
        map_name_result(n) == Ok::<Seq<char>, NameError>(n),
    ensures
        clean_name(n),
{
}

proof fn lemma_step_grid(st: PackState, l: Seq<char>)
    requires
        grid_line(l),
        trim(l).len() > 0,
    ensures
        pack_step(st, l) == (PackState { current: st.current.push(l), ..st }),
{
    lemma_trim_keeps(l, |c: char| is_level_char(c));
    let t = trim(l);
    if l.len() == 0 {
        assert(trim_start(l) == l);
        assert(trim_end(l) == l);
    }
    assert(is_level_char(l[0]));
    assert(is_level_char(t[0]));
    if has_prefix(t, title_prefix()) {
        assert(t.take(6)[0] == t[0]);
        assert(title_prefix()[0] == 'T');
    }
}

proof fn lemma_step_title(st: PackState, n: Seq<char>)
    requires
        clean_name(n),
        st.current.len() > 0,
    ensures
        pack_step(st, title_line(n)) == flush(PackState { pending: Some(n), ..st }),
{
    reveal_strlit("Title: ");
    lemma_clean_name(n);
    let t = title_line(n);
    assert(t[0] == 'T');
    assert(t.last() == n.last());
    lemma_trim_same(t);
    assert(t.take(6) =~= title_prefix());
    assert(t.skip(6) =~= seq![' '] + n);
    assert(title_of(t) == Some(n));
}

proof fn lemma_step_collection(st: PackState, name: Seq<char>)
    requires
        clean_name(name),
    ensures
        pack_step(st, collection_line(name)) == flush(st),
{
    reveal_strlit("Collection: ");
    lemma_clean_name(name);
    let c = collection_line(name);
    assert(c[0] == 'C');
    assert(c.last() == name.last());
    lemma_trim_same(c);
    if has_prefix(c, title_prefix()) {
        assert(c.take(6)[0] == c[0]);
    }
    assert(!is_level_char(c[0]));
}

proof fn lemma_step_blank(st: PackState)
    ensures
        pack_step(st, Seq::empty()) == flush(st),
{
    let e = Seq::<char>::empty();
    assert(trim_start(e) == e);
    assert(trim_end(e) == e);
}

proof fn lemma_fold_grid(ls: Seq<Seq<char>>, st: PackState)
    requires
        forall|i: int| 0 <= i < ls.len() ==> grid_line(#[trigger] ls[i]) && trim(ls[i]).len() > 0,
    ensures
        ls.fold_left(st, pack_step_fn()) == (PackState { current: st.current + ls, ..st }),
    decreases ls.len(),
{
    if ls.len() == 0 {
        assert(st.current + ls =~= st.current);
    } else {
        let init = ls.drop_last();
        assert forall|i: int| 0 <= i < init.len() implies grid_line(#[trigger] init[i]) && trim(init[i]).len() > 0 by {
            assert(init[i] == ls[i]);
        }
        lemma_fold_grid(init, st);
        let mid = PackState { current: st.current + init, ..st };
        assert(ls.last() == ls[ls.len() - 1]);
        lemma_step_grid(mid, ls.last());
        assert((st.current + init).push(ls.last()) =~= st.current + ls);
    }
}

proof fn lemma_fold_map(m: (Seq<char>, Seq<Seq<char>>), st: PackState)
    requires
        savable_map(m),
        st.current.len() == 0,
    ensures
        map_lines(m).fold_left(st, pack_step_fn()) == (PackState {
            levels: st.levels.push((Some(m.0), m.1)),
            pending: None,
            current: Seq::empty(),
        }),
{
    let two = seq![title_line(m.0), Seq::<char>::empty()];
    lemma_fold_append(m.1, two, st);
    lemma_fold_grid(m.1, st);
    let s1 = PackState { current: st.current + m.1, ..st };
    assert(st.current + m.1 =~= m.1);
    lemma_name_clean(m.0);
    lemma_step_title(s1, m.0);
    let s2 = flush(PackState { pending: Some(m.0), ..s1 });
    lemma_step_blank(s2);
    assert(two.drop_last() =~= seq![title_line(m.0)]);
    assert(seq![title_line(m.0)].drop_last() =~= Seq::<Seq<char>>::empty());
    assert(seq![title_line(m.0)].last() == title_line(m.0));
    assert(two.last() == Seq::<char>::empty());
    let one = seq![title_line(m.0)];
    assert(one.drop_last().fold_left(s1, pack_step_fn()) == s1);
    assert(pack_step_fn()(s1, title_line(m.0)) == pack_step(s1, title_line(m.0)));
    assert(one.fold_left(s1, pack_step_fn()) == s2);
    assert(pack_step_fn()(s2, Seq::<char>::empty()) == pack_step(s2, Seq::<char>::empty()));
}

proof fn lemma_fold_maps(maps: Seq<(Seq<char>, Seq<Seq<char>>)>, st: PackState)
    requires
        forall|i: int| 0 <= i < maps.len() ==> savable_map(#[trigger] maps[i]),
        st.current.len() == 0,
        st.pending is None,
    ensures
        maps_lines(maps).fold_left(st, pack_step_fn()) == (PackState {
            levels: st.levels + maps_model(maps),
            pending: None,
            current: Seq::empty(),
        }),
    decreases maps.len(),
{
    if maps.len() == 0 {
        assert(st.levels + maps_model(maps) =~= st.levels);
        assert(st.current =~= Seq::<Seq<char>>::empty());
    } else {
        let init = maps.drop_last();
        assert forall|i: int| 0 <= i < init.len() implies savable_map(#[trigger] init[i]) by {
            assert(init[i] == maps[i]);
        }
        lemma_fold_maps(init, st);
        lemma_fold_append(maps_lines(init), map_lines(maps.last()), st);
        let mid = PackState { levels: st.levels + maps_model(init), pending: None, current: Seq::empty() };
        assert(maps.last() == maps[maps.len() - 1]);
        lemma_fold_map(maps.last(), mid);
        assert((st.levels + maps_model(init)).push((Some(maps.last().0), maps.last().1)) =~= st.levels + maps_model(maps));
    }
}

/// Saving a collection and reading the saved text back gives the same
/// collection name and the same maps, names and rows, in the same order,
/// for every collection whose name and maps saving keeps as they are.
pub proof fn lemma_saved_collection_reads_back(name: Seq<char>, maps: Seq<(Seq<char>, Seq<Seq<char>>)>)
    requires
        clean_name(name),
        forall|i: int| 0 <= i < maps.len() ==> savable_map(#[trigger] maps[i]),
    ensures
        collection_name_in(text_lines(collection_text(name, maps))) == Some(name),
        pack_levels(collection_text(name, maps)) == maps_model(maps),
        forall|i: int| 0 <= i < maps.len() ==> existing_map_name(
            #[trigger] pack_levels(collection_text(name, maps))[i].0,
            i as nat,
        ) == maps[i].0 && pack_levels(collection_text(name, maps))[i].1 == maps[i].1,
{
    reveal_strlit("Title: ");
    reveal_strlit("Collection: ");
    lemma_clean_name(name);
    let lines = file_lines(name, maps);
    // every line of the file is plain
    assert forall|i: int| 0 <= i < lines.len() implies plain_line(#[trigger] lines[i]) by {
        lemma_plain_file_line(name, maps, i);
    }
    lemma_collection_text(name, maps);
    lemma_text_lines_of_lines_text(lines);
    let text = collection_text(name, maps);
    assert(text_lines(text) == lines);
    // the collection name
    let c = collection_line(name);
    assert(lines[0] == c);
    assert(c[0] == 'C');
    assert(c.last() == name.last());
    lemma_trim_same(c);
    assert(c.take(11) =~= collection_prefix());
    assert(c.skip(11) =~= seq![' '] + name);
    // the levels
    let head = seq![c, Seq::<char>::empty()];
    lemma_fold_append(head, maps_lines(maps), pack_start());
    lemma_step_collection(pack_start(), name);
    lemma_step_blank(flush(pack_start()));
    assert(head.drop_last() =~= seq![c]);
    assert(seq![c].drop_last() =~= Seq::<Seq<char>>::empty());
    assert(seq![c].last() == c);
    assert(head.last() == Seq::<char>::empty());
    assert(flush(flush(pack_start())) == pack_start());
    let one = seq![c];
    assert(one.drop_last().fold_left(pack_start(), pack_step_fn()) == pack_start());
    assert(pack_step_fn()(pack_start(), c) == pack_step(pack_start(), c));
    assert(one.fold_left(pack_start(), pack_step_fn()) == flush(pack_start()));
    assert(pack_step_fn()(flush(pack_start()), Seq::<char>::empty()) == pack_step(flush(pack_start()), Seq::<char>::empty()));
    assert(head.fold_left(pack_start(), pack_step_fn()) == pack_start());
    lemma_fold_maps(maps, pack_start());
    assert(Seq::<RawLevelModel>::empty() + maps_model(maps) =~= maps_model(maps));
    assert forall|i: int| 0 <= i < maps.len() implies existing_map_name(
        #[trigger] pack_levels(collection_text(name, maps))[i].0,
        i as nat,
    ) == maps[i].0 && pack_levels(collection_text(name, maps))[i].1 == maps[i].1 by {
        assert(savable_map(maps[i]));
    }
}

proof fn lemma_plain_file_line(name: Seq<char>, maps: Seq<(Seq<char>, Seq<Seq<char>>)>, i: int)
    requires
        clean_name(name),
        forall|k: int| 0 <= k < maps.len() ==> savable_map(#[trigger] maps[k]),
        0 <= i < file_lines(name, maps).len(),
    ensures
        plain_line(file_lines(name, maps)[i]),
{
    reveal_strlit("Collection: ");
    lemma_clean_name(name);
    let lines = file_lines(name, maps);
    if i == 0 {
        let c = collection_line(name);
        assert(lines[0] == c);
        assert forall|t: int| 0 <= t < c.len() implies #[trigger] c[t] != '\n' by {
            if t >= 12 {
                assert(c[t] == name[t - 12]);
            }
        }
        assert(c.last() == name.last());
    } else if i == 1 {
        assert(lines[1] == Seq::<char>::empty());
    } else {
        assert(lines[i] == maps_lines(maps)[i - 2]);
        lemma_plain_maps_line(maps, i - 2);
    }
}

proof fn lemma_plain_maps_line(maps: Seq<(Seq<char>, Seq<Seq<char>>)>, i: int)
    requires
        forall|k: int| 0 <= k < maps.len() ==> savable_map(#[trigger] maps[k]),
        0 <= i < maps_lines(maps).len(),
    ensures
        plain_line(maps_lines(maps)[i]),
    decreases maps.len(),
{
    reveal_strlit("Title: ");
    let init = maps.drop_last();
    let m = maps.last();
    assert(savable_map(m)) by {
        assert(m == maps[maps.len() - 1]);
    }
    let a = maps_lines(init);
    if i < a.len() {
        assert forall|k: int| 0 <= k < init.len() implies savable_map(#[trigger] init[k]) by {
            assert(init[k] == maps[k]);
        }
        lemma_plain_maps_line(init, i);
        assert(maps_lines(maps)[i] == a[i]);
    } else {
        let j = i - a.len();
        let ml = map_lines(m);
        assert(maps_lines(maps)[i] == ml[j]);
        if j < m.1.len() {
            let l = m.1[j];
            assert(grid_line(l));
            assert forall|t: int| 0 <= t < l.len() implies #[trigger] l[t] != '\n' by {
                assert(is_level_char(l[t]));
            }
            if l.len() > 0 {
                assert(is_level_char(l[l.len() - 1]));
            }
            assert(ml[j] == l);
        } else if j == m.1.len() {
            lemma_name_clean(m.0);
            lemma_clean_name(m.0);
            let t = title_line(m.0);
            assert(ml[j] == t);
            assert forall|k: int| 0 <= k < t.len() implies #[trigger] t[k] != '\n' by {
                if k >= 7 {
                    assert(t[k] == m.0[k - 7]);
                }
            }
            assert(t.last() == m.0.last());
        } else {
            assert(ml[j] == Seq::<char>::empty());
        }
    }
}

} // verus!
