//! PAM stacks: whether Howdy is enabled in one, and the edit that turns it
//! on or off.
use vstd::prelude::*;
use crate::text::{
    all_lack_newline, chars_of, contains, contains_exec, first_index_of, is_white, lacks,
    lemma_first_index_is, lemma_first_index_of, lemma_lines_lack_newline,
    lemma_lines_of_unlines, lemma_trim_end_keeps_first, lemma_trim_slice,
    lemma_trim_start_skip, lemma_trim_strip_cr, lines, lines_exec, occurs_at, slice_of,
    starts_with, starts_with_exec, strip_cr, trim, trim_exec, trim_start,
    trim_start_exec, unlines, unlines_exec, views, replace_all, replace_all_exec, after_last,
    after_last_exec, eq_exec, push_str,
};
use crate::stdcalls::string_of;

verus! {

/// The line that enables Howdy in a PAM stack.
pub const PAM_LINE: &'static str = "auth sufficient pam_howdy.so";

/// The line that enables Howdy in the polkit stack, whose helper resolves PAM
/// modules in a restricted sandbox and so needs the module's full path.
pub const PAM_POLKIT_LINE: &'static str = "auth sufficient /lib/security/pam_howdy.so";

/// The PAM stacks that the front end manages.
pub const PAM_SDDM: &'static str = "/etc/pam.d/sddm";
pub const PAM_KDE: &'static str = "/etc/pam.d/kde";
pub const PAM_SUDO: &'static str = "/etc/pam.d/sudo";
pub const PAM_SYSTEM_LOGIN: &'static str = "/etc/pam.d/system-local-login";
pub const PAM_PLASMA_LM: &'static str = "/etc/pam.d/plasmalogin";
pub const PAM_POLKIT: &'static str = "/etc/pam.d/polkit-1";

/// The line (already trimmed) names the Howdy PAM module.
pub open spec fn mentions_howdy(t: Seq<char>) -> bool {
    contains(t, "pam_howdy.so"@) || contains(t, "howdy/pam.py"@)
}

/// The line (already trimmed) is a comment.
pub open spec fn is_comment(t: Seq<char>) -> bool {
    t.len() > 0 && t[0] == '#'
}

/// A line of a PAM stack that enables Howdy.
pub open spec fn active_howdy_line(l: Seq<char>) -> bool {
    !is_comment(trim(l)) && mentions_howdy(trim(l))
}

/// A line of a PAM stack that names Howdy but is commented out.
pub open spec fn commented_howdy_line(l: Seq<char>) -> bool {
    is_comment(trim(l)) && mentions_howdy(trim(l))
}

/// Some line of the stack enables Howdy.
pub open spec fn howdy_active(content: Seq<char>) -> bool {
    exists|i: int| 0 <= i < lines(content).len() && active_howdy_line(#[trigger] lines(content)[i])
}

/// Some line of the stack names Howdy but is commented out.
pub open spec fn howdy_commented(content: Seq<char>) -> bool {
    exists|i: int|
        0 <= i < lines(content).len() && commented_howdy_line(#[trigger] lines(content)[i])
}

pub fn mentions_howdy_exec(t: &Vec<char>) -> (b: bool)
    ensures
        b == mentions_howdy(t@),
{
    contains_exec(t, "pam_howdy.so") || contains_exec(t, "howdy/pam.py")
}

pub fn is_comment_exec(t: &Vec<char>) -> (b: bool)
    ensures
        b == is_comment(t@),
{
    t.len() > 0 && t[0] == '#'
}

/// Returns true if a non-commented howdy auth line is present in the PAM file content.
pub fn pam_howdy_active(content: &str) -> (b: bool)
    ensures
        b == howdy_active(content@),
{
    let ls = lines_exec(&chars_of(content));
    let mut i: usize = 0;
    while i < ls.len()
        invariant
            i <= ls.len(),
            views(ls@) == lines(content@),
            forall|k: int| 0 <= k < i ==> !active_howdy_line(#[trigger] lines(content@)[k]),
        decreases ls.len() - i,
    {
        let t = trim_exec(&ls[i]);
        assert(ls@[i as int]@ == lines(content@)[i as int]);
        if !is_comment_exec(&t) && mentions_howdy_exec(&t) {
            return true;
        }
        i = i + 1;
    }
    false
}


/// A line as the edit that turns Howdy off leaves it: an enabling line gets a
/// `#` in front.
pub open spec fn disable_line(l: Seq<char>) -> Seq<char> {
    if active_howdy_line(l) {
        seq!['#'] + l
    } else {
        l
    }
}

/// A trimmed text without the comment marks that open it: every leading `#`
/// goes, with the whitespace after it.
pub open spec fn strip_comment(t: Seq<char>) -> Seq<char>
    decreases t.len(),
{
    if t.len() > 0 && t[0] == '#' {
        proof {
            lemma_trim_start_skip(t.drop_first());
        }
        strip_comment(trim_start(t.drop_first()))
    } else {
        t
    }
}

/// A line as uncommenting leaves it: a commented Howdy line loses its
/// indentation and every `#` that opens it, with the whitespace after each,
/// so that it enables Howdy.
pub open spec fn uncomment_line(l: Seq<char>) -> Seq<char> {
    if commented_howdy_line(l) {
        strip_comment(trim(l))
    } else {
        l
    }
}

/// The line does not name the Howdy module, commented or not.
pub open spec fn keeps_no_howdy(l: Seq<char>) -> bool {
    !mentions_howdy(trim(l))
}

/// The stack opens with the `#%PAM-1.0` header line.
pub open spec fn has_pam_header(ls: Seq<Seq<char>>) -> bool {
    ls.len() > 0 && starts_with(ls[0], "#%PAM-1.0"@)
}

/// Where a new line goes: after the header if there is one, else at the top.
pub open spec fn insert_pos(ls: Seq<Seq<char>>) -> int {
    if has_pam_header(ls) {
        1
    } else {
        0
    }
}

/// The stack with `line` inserted after the header, or at the top.
pub open spec fn insert_after_header(ls: Seq<Seq<char>>, line: Seq<char>) -> Seq<Seq<char>> {
    ls.insert(insert_pos(ls), line)
}

/// The stack after toggling Howdy:
/// - on → off: every enabling line is commented out;
/// - off → on, polkit: every Howdy line goes and the full-path line is inserted;
/// - off → on, a commented Howdy line exists: the commented Howdy lines are uncommented;
/// - off → on, otherwise: the Howdy line is inserted.
/// The lines are written back joined by `'\n'`, with a final `'\n'`.
pub open spec fn toggled_pam(content: Seq<char>, polkit: bool) -> Seq<char> {
    let ls = lines(content);
    if howdy_active(content) {
        unlines(ls.map_values(|l: Seq<char>| disable_line(l)))
    } else if polkit {
        unlines(insert_after_header(ls.filter(|l: Seq<char>| keeps_no_howdy(l)), PAM_POLKIT_LINE@))
    } else if howdy_commented(content) {
        unlines(ls.map_values(|l: Seq<char>| uncomment_line(l)))
    } else {
        unlines(insert_after_header(ls, PAM_LINE@))
    }
}

fn disable_line_exec(l: &Vec<char>) -> (r: Vec<char>)
    ensures
        r@ == disable_line(l@),
{
    let t = trim_exec(l);
    if !is_comment_exec(&t) && mentions_howdy_exec(&t) {
        let mut r: Vec<char> = Vec::new();
        r.push('#');
        let mut j: usize = 0;
        while j < l.len()
            invariant
                j <= l.len(),
                r@ =~= seq!['#'] + l@.take(j as int),
            decreases l.len() - j,
        {
            r.push(l[j]);
            j = j + 1;
        }
        assert(l@.take(j as int) =~= l@);
        r
    } else {
        slice_of(l, 0, l.len())
    }
}

fn uncomment_line_exec(l: &Vec<char>) -> (r: Vec<char>)
    ensures
        r@ == uncomment_line(l@),
{
    let t = trim_exec(l);
    if is_comment_exec(&t) && mentions_howdy_exec(&t) {
        let ghost t0 = t@;
        let mut u = t;
        while u.len() > 0 && u[0] == '#'
            invariant
                strip_comment(t0) == strip_comment(u@),
            decreases u.len(),
        {
            let rest = slice_of(&u, 1, u.len());
            assert(rest@ =~= u@.drop_first());
            let next = trim_start_exec(&rest);
            proof {
                lemma_trim_start_skip(rest@);
            }
            u = next;
        }
        u
    } else {
        let r = slice_of(l, 0, l.len());
        assert(r@ =~= l@);
        r
    }
}

fn active_index(ls: &Vec<Vec<char>>) -> (r: bool)
    ensures
        r == exists|i: int| 0 <= i < ls@.len() && active_howdy_line(#[trigger] views(ls@)[i]),
{
    let mut i: usize = 0;
    while i < ls.len()
        invariant
            i <= ls.len(),
            forall|k: int| 0 <= k < i ==> !active_howdy_line(#[trigger] views(ls@)[k]),
        decreases ls.len() - i,
    {
        let t = trim_exec(&ls[i]);
        assert(views(ls@)[i as int] == ls@[i as int]@);
        if !is_comment_exec(&t) && mentions_howdy_exec(&t) {
            return true;
        }
        i = i + 1;
    }
    false
}

fn commented_index(ls: &Vec<Vec<char>>) -> (r: bool)
    ensures
        r == exists|i: int| 0 <= i < ls@.len() && commented_howdy_line(#[trigger] views(ls@)[i]),
{
    let mut i: usize = 0;
    while i < ls.len()
        invariant
            i <= ls.len(),
            forall|k: int| 0 <= k < i ==> !commented_howdy_line(#[trigger] views(ls@)[k]),
        decreases ls.len() - i,
    {
        let t = trim_exec(&ls[i]);
        assert(views(ls@)[i as int] == ls@[i as int]@);
        if is_comment_exec(&t) && mentions_howdy_exec(&t) {
            return true;
        }
        i = i + 1;
    }
    false
}

fn insert_after_header_exec(ls: &mut Vec<Vec<char>>, line: &str)
    ensures
        views(final(ls)@) == insert_after_header(views(old(ls)@), line@),
{
    let pos: usize = if ls.len() > 0 && starts_with_exec(&ls[0], "#%PAM-1.0") {
        1
    } else {
        0
    };
    assert(ls.len() > 0 ==> views(ls@)[0] == ls@[0]@);
    let ghost before = ls@;
    ls.insert(pos, chars_of(line));
    assert(views(ls@) =~= insert_after_header(views(before), line@));
}

/// Computes the PAM stack after toggling Howdy in it. `polkit` says that the
/// stack is the polkit one. Returns whether Howdy was enabled before, and the
/// new text of the stack.
pub fn toggle_pam_content(content: &str, polkit: bool) -> (r: (bool, String))
    ensures
        r.0 == howdy_active(content@),
        r.1@ == toggled_pam(content@, polkit),
{
    let ls = lines_exec(&chars_of(content));
    let ghost ls_view = lines(content@);
    let enabled = active_index(&ls);
    let mut out: Vec<Vec<char>> = Vec::new();
    if enabled {
        let mut i: usize = 0;
        while i < ls.len()
            invariant
                i <= ls.len(),
                views(ls@) == ls_view,
                views(out@) =~= ls_view.take(i as int).map_values(|l: Seq<char>| disable_line(l)),
            decreases ls.len() - i,
        {
            let ghost before = out@;
            let x = disable_line_exec(&ls[i]);
            out.push(x);
            assert(ls_view[i as int] == ls@[i as int]@);
            assert(views(out@) =~= views(before).push(x@));
            assert(ls_view.take(i + 1) =~= ls_view.take(i as int).push(ls_view[i as int]));
            i = i + 1;
            assert(views(out@) =~= ls_view.take(i as int).map_values(|l: Seq<char>| disable_line(l)));
        }
        assert(ls_view.take(i as int) =~= ls_view);
    } else if polkit {
        let mut i: usize = 0;
        assert(ls_view.take(0).filter(|l: Seq<char>| keeps_no_howdy(l)) =~= Seq::<Seq<char>>::empty()) by {
            reveal(Seq::filter);
        }
        while i < ls.len()
            invariant
                i <= ls.len(),
                views(ls@) == ls_view,
                views(out@) =~= ls_view.take(i as int).filter(|l: Seq<char>| keeps_no_howdy(l)),
            decreases ls.len() - i,
        {
            let t = trim_exec(&ls[i]);
            assert(ls_view[i as int] == ls@[i as int]@);
            assert(ls_view.take(i + 1) =~= ls_view.take(i as int).push(ls_view[i as int]));
            proof {
                ls_view.take(i as int).lemma_filter_push(ls_view[i as int], |l: Seq<char>| keeps_no_howdy(l));
            }
            if !mentions_howdy_exec(&t) {
                out.push(slice_of(&ls[i], 0, ls[i].len()));
                assert(ls@[i as int]@.subrange(0, ls@[i as int]@.len() as int) =~= ls@[i as int]@);
            }
            i = i + 1;
            assert(views(out@) =~= ls_view.take(i as int).filter(|l: Seq<char>| keeps_no_howdy(l)));
        }
        assert(ls_view.take(i as int) =~= ls_view);
        insert_after_header_exec(&mut out, PAM_POLKIT_LINE);
    } else if commented_index(&ls) {
        let mut i: usize = 0;
        while i < ls.len()
            invariant
                i <= ls.len(),
                views(ls@) == ls_view,
                views(out@) =~= ls_view.take(i as int).map_values(|l: Seq<char>| uncomment_line(l)),
            decreases ls.len() - i,
        {
            let ghost before = out@;
            let x = uncomment_line_exec(&ls[i]);
            out.push(x);
            assert(ls_view[i as int] == ls@[i as int]@);
            assert(views(out@) =~= views(before).push(x@));
            assert(ls_view.take(i + 1) =~= ls_view.take(i as int).push(ls_view[i as int]));
            i = i + 1;
            assert(views(out@) =~= ls_view.take(i as int).map_values(|l: Seq<char>| uncomment_line(l)));
        }
        assert(ls_view.take(i as int) =~= ls_view);
    } else {
        let mut i: usize = 0;
        while i < ls.len()
            invariant
                i <= ls.len(),
                views(ls@) == ls_view,
                views(out@) =~= ls_view.take(i as int),
            decreases ls.len() - i,
        {
            let ghost before = out@;
            let x = slice_of(&ls[i], 0, ls[i].len());
            out.push(x);
            assert(ls_view[i as int] == ls@[i as int]@);
            assert(views(out@) =~= views(before).push(x@));
            assert(ls_view.take(i + 1) =~= ls_view.take(i as int).push(ls_view[i as int]));
            assert(ls@[i as int]@.subrange(0, ls@[i as int]@.len() as int) =~= ls@[i as int]@);
            i = i + 1;
            assert(views(out@) =~= ls_view.take(i as int));
        }
        assert(ls_view.take(i as int) =~= ls_view);
        insert_after_header_exec(&mut out, PAM_LINE);
    }
    let text = unlines_exec(&out);
    (enabled, string_of(&text))
}


/// Toggling Howdy in a PAM stack flips whether it is enabled there: turning it
/// off leaves no enabling line, and turning it on leaves one.
pub proof fn lemma_toggle_flips(content: Seq<char>, polkit: bool)
    ensures
        howdy_active(toggled_pam(content, polkit)) == !howdy_active(content),
{
    let ls = lines(content);
    lemma_lines_lack_newline(content);
    lemma_enabling_lines();
    if howdy_active(content) {
        let out = ls.map_values(|l: Seq<char>| disable_line(l));
        assert forall|i: int| 0 <= i < out.len() implies lacks(#[trigger] out[i], '\n') && !active_howdy_line(out[i]) by {
            lemma_disable_line(ls[i]);
        }
        lemma_active_of_unlines(out);
    } else if polkit {
        let kept = ls.filter(|l: Seq<char>| keeps_no_howdy(l));
        assert forall|i: int| 0 <= i < kept.len() implies lacks(#[trigger] kept[i], '\n') by {
            ls.lemma_filter_contains_rev(|l: Seq<char>| keeps_no_howdy(l), kept[i]);
            assert(kept.contains(kept[i]));
        }
        lemma_insert_enabling(kept, PAM_POLKIT_LINE@);
    } else if howdy_commented(content) {
        let out = ls.map_values(|l: Seq<char>| uncomment_line(l));
        let i0 = choose|i: int| 0 <= i < ls.len() && commented_howdy_line(#[trigger] ls[i]);
        assert forall|i: int| 0 <= i < out.len() implies lacks(#[trigger] out[i], '\n') by {
            lemma_uncomment_lacks(ls[i]);
        }
        lemma_uncommented_active(ls[i0]);
        assert(active_howdy_line(out[i0]));
        lemma_active_of_unlines(out);
    } else {
        lemma_insert_enabling(ls, PAM_LINE@);
    }
}

/// Turning Howdy on in a stack other than polkit's, where Howdy is only
/// commented out, uncomments each commented Howdy line and keeps its text:
/// the line, trimmed, loses the `#` marks that open it and the whitespace
/// among and after them, and nothing else; every other line stays as it was.
pub proof fn lemma_uncomment_keeps_text(content: Seq<char>) -> (out: Seq<Seq<char>>)
    requires
        !howdy_active(content),
        howdy_commented(content),
    ensures
        toggled_pam(content, false) == unlines(out),
        out.len() == lines(content).len(),
        forall|i: int| 0 <= i < out.len() ==> {
            let l = lines(content)[i];
            let t = trim(l);
            let u = #[trigger] out[i];
            if t.len() > 0 && t[0] == '#' && (contains(t, "pam_howdy.so"@) || contains(t, "howdy/pam.py"@)) {
                &&& u.len() < t.len()
                &&& u == t.skip(t.len() - u.len())
                &&& forall|j: int| 0 <= j < t.len() - u.len() ==> t[j] == '#' || is_white(#[trigger] t[j])
                &&& u.len() > 0 ==> u[0] != '#' && !is_white(u[0])
            } else {
                u == l
            }
        },
{
    let ls = lines(content);
    let out = ls.map_values(|l: Seq<char>| uncomment_line(l));
    assert forall|i: int| 0 <= i < out.len() implies {
        let l = lines(content)[i];
        let t = trim(l);
        let u = #[trigger] out[i];
        if t.len() > 0 && t[0] == '#' && (contains(t, "pam_howdy.so"@) || contains(t, "howdy/pam.py"@)) {
            &&& u.len() < t.len()
            &&& u == t.skip(t.len() - u.len())
            &&& forall|j: int| 0 <= j < t.len() - u.len() ==> t[j] == '#' || is_white(#[trigger] t[j])
            &&& u.len() > 0 ==> u[0] != '#' && !is_white(u[0])
        } else {
            u == l
        }
    } by {
        let l = ls[i];
        let t = trim(l);
        if commented_howdy_line(l) {
            let m = lemma_strip_comment_suffix(t);
            assert(out[i] == t.skip(m));
            if m < t.len() {
                assert(out[i][0] == t[m]);
            }
        }
    }
    out
}

/// Two stacks joined by a line break enable Howdy exactly when one of them
/// does: the break opens no line of its own that could enable it.
pub proof fn lemma_active_concat(a: Seq<char>, b: Seq<char>)
    ensures
        howdy_active(a + seq!['\n'] + b) == (howdy_active(a) || howdy_active(b)),
    decreases a.len(),
{
    let s = a + seq!['\n'] + b;
    let k = first_index_of(a, '\n');
    lemma_first_index_of(a, '\n');
    if k < a.len() {
        assert forall|j: int| 0 <= j < k implies s[j] != '\n' by {
            assert(s[j] == a.take(k)[j]);
        }
        assert(s[k] == a[k]);
        lemma_first_index_is(s, '\n', k);
        let a2 = a.skip(k + 1);
        assert(s.skip(k + 1) =~= a2 + seq!['\n'] + b);
        assert(s.take(k) =~= a.take(k));
        lemma_active_concat(a2, b);
        let h = strip_cr(a.take(k));
        assert(lines(s) == seq![h] + lines(a2 + seq!['\n'] + b));
        assert(lines(a) == seq![h] + lines(a2));
        assert(howdy_active(s) == active_among(lines(s)));
        assert(howdy_active(a) == active_among(lines(a)));
        assert(howdy_active(a2) == active_among(lines(a2)));
        assert(howdy_active(a2 + seq!['\n'] + b) == active_among(lines(a2 + seq!['\n'] + b)));
        lemma_active_cons(h, lines(a2 + seq!['\n'] + b));
        lemma_active_cons(h, lines(a2));
    } else {
        assert forall|j: int| 0 <= j < a.len() implies s[j] != '\n' by {
            assert(s[j] == a.take(k)[j]);
        }
        lemma_first_index_is(s, '\n', a.len() as int);
        assert(s.take(a.len() as int) =~= a);
        assert(s.skip(a.len() as int + 1) =~= b);
        assert(lines(s) == seq![strip_cr(a)] + lines(b));
        assert(howdy_active(s) == active_among(lines(s)));
        assert(howdy_active(a) == active_among(lines(a)));
        assert(howdy_active(b) == active_among(lines(b)));
        lemma_active_cons(strip_cr(a), lines(b));
        lemma_trim_strip_cr(a);
        if a.len() == 0 {
            lemma_empty_inactive();
            assert(a =~= Seq::<char>::empty());
            assert(strip_cr(a) == a);
            assert(lines(a).len() == 0);
            } else {
            assert(lines(a) == seq![a]);
            assert(active_howdy_line(strip_cr(a)) == active_howdy_line(a));
            lemma_active_cons(a, Seq::<Seq<char>>::empty());
            assert(seq![a] + Seq::<Seq<char>>::empty() =~= seq![a]);
            }
    }
}

/// Some line of the list enables Howdy.
pub open spec fn active_among(ls: Seq<Seq<char>>) -> bool {
    exists|i: int| 0 <= i < ls.len() && active_howdy_line(#[trigger] ls[i])
}

/// Lines enable Howdy when the first of them or one of the others does.
proof fn lemma_active_cons(h: Seq<char>, r: Seq<Seq<char>>)
    ensures
        active_among(seq![h] + r) == (active_howdy_line(h) || active_among(r)),
{
    let x = seq![h] + r;
    assert(x[0] == h);
    if active_among(r) {
        let i = choose|i: int| 0 <= i < r.len() && active_howdy_line(#[trigger] r[i]);
        assert(x[i + 1] == r[i]);
    }
    if active_among(x) {
        let i = choose|i: int| 0 <= i < x.len() && active_howdy_line(#[trigger] x[i]);
        if i > 0 {
            assert(r[i - 1] == x[i]);
        }
    }
}

/// An empty line does not enable Howdy.
proof fn lemma_empty_inactive()
    ensures
        !active_howdy_line(Seq::<char>::empty()),
{
    let e = Seq::<char>::empty();
    assert(trim_start(e) == e);
    assert(trim(e) == e);
    assert(!contains(e, "pam_howdy.so"@)) by {
        reveal_strlit("pam_howdy.so");
    }
    assert(!contains(e, "howdy/pam.py"@)) by {
        reveal_strlit("howdy/pam.py");
    }
}

/// Facts about the two enabling lines: each enables Howdy and has no `'\n'`.
proof fn lemma_enabling_lines()
    ensures
        active_howdy_line(PAM_LINE@),
        active_howdy_line(PAM_POLKIT_LINE@),
        lacks(PAM_LINE@, '\n'),
        lacks(PAM_POLKIT_LINE@, '\n'),
{
    reveal_strlit("auth sufficient pam_howdy.so");
    reveal_strlit("auth sufficient /lib/security/pam_howdy.so");
    reveal_strlit("pam_howdy.so");
    let a = PAM_LINE@;
    let b = PAM_POLKIT_LINE@;
    lemma_trimmed_fixed(a);
    lemma_trimmed_fixed(b);
    assert(a.subrange(16, 28) =~= "pam_howdy.so"@);
    assert(b.subrange(30, 42) =~= "pam_howdy.so"@);
    assert(occurs_at(a, "pam_howdy.so"@, 16));
    assert(occurs_at(b, "pam_howdy.so"@, 30));
}

/// A text with non-whitespace at both ends is its own trimmed form.
proof fn lemma_trimmed_fixed(s: Seq<char>)
    requires
        s.len() > 0,
        !is_white(s[0]),
        !is_white(s.last()),
    ensures
        trim(s) == s,
{
    assert(trim_start(s) == s);
}

/// Inserting an enabling line into lines free of `'\n'` gives an enabled stack.
proof fn lemma_insert_enabling(ls: Seq<Seq<char>>, line: Seq<char>)
    requires
        all_lack_newline(ls),
        lacks(line, '\n'),
        active_howdy_line(line),
    ensures
        howdy_active(unlines(insert_after_header(ls, line))),
{
    let pos = insert_pos(ls);
    let out = insert_after_header(ls, line);
    ls.insert_ensures(pos, line);
    assert forall|i: int| 0 <= i < out.len() implies lacks(#[trigger] out[i], '\n') by {
        if i < pos {
            assert(out[i] == ls[i]);
        } else if i > pos {
            assert(out[(i - 1) + 1] == ls[i - 1]);
        }
    }
    assert(active_howdy_line(out[pos]));
    lemma_active_of_unlines(out);
}

/// Whether written-back lines enable Howdy is whether one of the lines does.
proof fn lemma_active_of_unlines(ls: Seq<Seq<char>>)
    requires
        all_lack_newline(ls),
    ensures
        howdy_active(unlines(ls)) == exists|i: int| 0 <= i < ls.len() && active_howdy_line(#[trigger] ls[i]),
{
    let s = unlines(ls);
    lemma_lines_of_unlines(ls);
    if ls.len() == 0 {
        let e = Seq::<char>::empty();
        reveal_strlit("pam_howdy.so");
        reveal_strlit("howdy/pam.py");
        assert(lines(s) == seq![e]);
        lemma_trim_slice(e);
        assert(!contains(trim(e), "pam_howdy.so"@));
        assert(!contains(trim(e), "howdy/pam.py"@));
        assert(!active_howdy_line(lines(s)[0]));
    } else {
        let m = ls.map_values(|l: Seq<char>| strip_cr(l));
        assert(lines(s) == m);
        if exists|i: int| 0 <= i < ls.len() && active_howdy_line(#[trigger] ls[i]) {
            let i = choose|i: int| 0 <= i < ls.len() && active_howdy_line(#[trigger] ls[i]);
            lemma_trim_strip_cr(ls[i]);
            assert(active_howdy_line(lines(s)[i]));
        }
        if howdy_active(s) {
            let i = choose|i: int| 0 <= i < lines(s).len() && active_howdy_line(#[trigger] lines(s)[i]);
            lemma_trim_strip_cr(ls[i]);
            assert(active_howdy_line(ls[i]));
        }
    }
}

/// Disabling a line keeps it free of `'\n'` and leaves it not enabling Howdy.
proof fn lemma_disable_line(l: Seq<char>)
    ensures
        lacks(l, '\n') ==> lacks(disable_line(l), '\n'),
        !active_howdy_line(disable_line(l)),
{
    if active_howdy_line(l) {
        let d = seq!['#'] + l;
        assert(d[0] == '#');
        assert(!is_white('#'));
        assert(trim_start(d) == d);
        lemma_trim_end_keeps_first(d);
        assert(is_comment(trim(d)));
        if lacks(l, '\n') {
            assert forall|j: int| 0 <= j < d.len() implies d[j] != '\n' by {
                if j > 0 {
                    assert(d[j] == l[j - 1]);
                }
            }
        }
    }
}

/// An occurrence that cannot begin in the first `m` characters survives
/// dropping them.
proof fn lemma_occurs_after(t: Seq<char>, p: Seq<char>, m: int)
    requires
        contains(t, p),
        p.len() > 0,
        0 <= m <= t.len(),
        forall|j: int| 0 <= j < m ==> t[j] != p[0],
    ensures
        contains(t.skip(m), p),
{
    let i = choose|i: int| occurs_at(t, p, i);
    assert(t.subrange(i, i + p.len())[0] == t[i]);
    assert(i >= m);
    assert(t.skip(m).subrange(i - m, i - m + p.len()) =~= t.subrange(i, i + p.len()));
    assert(occurs_at(t.skip(m), p, i - m));
}

/// Stripping the comment marks leaves a suffix of the text.
proof fn lemma_strip_comment_suffix(t: Seq<char>) -> (m: int)
    ensures
        0 <= m <= t.len(),
        strip_comment(t) == t.skip(m),
        forall|j: int| 0 <= j < m ==> t[j] == '#' || is_white(#[trigger] t[j]),
        m < t.len() ==> t[m] != '#',
        0 < m < t.len() ==> !is_white(t[m]),
    decreases t.len(),
{
    if t.len() > 0 && t[0] == '#' {
        let d = t.drop_first();
        let k = lemma_trim_start_skip(d);
        let m1 = lemma_strip_comment_suffix(d.skip(k));
        assert(d.skip(k).skip(m1) =~= t.skip(1 + k + m1));
        let m = 1 + k + m1;
        assert forall|j: int| 0 <= j < m implies t[j] == '#' || is_white(#[trigger] t[j]) by {
            if 0 < j < 1 + k {
                assert(t[j] == d.take(k)[j - 1]);
            } else if j >= 1 + k {
                assert(t[j] == d.skip(k)[j - 1 - k]);
            }
        }
        if m < t.len() {
            assert(t[m] == d.skip(k)[m1]);
            if m1 == 0 {
                assert(t[m] == d[k]);
            }
        }
        m
    } else {
        assert(t.skip(0) =~= t);
        0
    }
}

/// Stripping the comment marks from a trimmed text that holds `p` (a pattern
/// that opens with neither `#` nor whitespace) leaves a trimmed text that
/// holds `p` and is no comment.
proof fn lemma_strip_comment(t: Seq<char>, p: Seq<char>)
    requires
        t.len() > 0,
        !is_white(t[0]),
        !is_white(t.last()),
        contains(t, p),
        p.len() > 0,
        p[0] != '#',
        !is_white(p[0]),
    ensures
        !is_comment(strip_comment(t)),
        contains(strip_comment(t), p),
        trim(strip_comment(t)) == strip_comment(t),
    decreases t.len(),
{
    if t[0] == '#' {
        let d = t.drop_first();
        let k = lemma_trim_start_skip(d);
        assert forall|j: int| 0 <= j < k + 1 implies t[j] != p[0] by {
            if j > 0 {
                assert(t[j] == d.take(k)[j - 1]);
            }
        }
        lemma_occurs_after(t, p, k + 1);
        let u = t.skip(k + 1);
        assert(u =~= d.skip(k));
        let i = choose|i: int| occurs_at(u, p, i);
        assert(u.len() > 0);
        assert(u[0] == d[k]);
        assert(u.last() == t.last());
        lemma_strip_comment(u, p);
    } else {
        lemma_trimmed_fixed(t);
    }
}

/// Uncommenting a line keeps it free of `'\n'`.
proof fn lemma_uncomment_lacks(l: Seq<char>)
    requires
        lacks(l, '\n'),
    ensures
        lacks(uncomment_line(l), '\n'),
{
    if commented_howdy_line(l) {
        let (a, b) = lemma_trim_slice(l);
        let t = trim(l);
        let m = lemma_strip_comment_suffix(t);
        let u = uncomment_line(l);
        assert(u == t.skip(m));
        assert forall|j: int| 0 <= j < u.len() implies u[j] != '\n' by {
            assert(u[j] == l[a + m + j]);
        }
    }
}

/// Uncommenting a commented Howdy line gives a line that enables Howdy.
proof fn lemma_uncommented_active(l: Seq<char>)
    requires
        commented_howdy_line(l),
    ensures
        active_howdy_line(uncomment_line(l)),
{
    reveal_strlit("pam_howdy.so");
    reveal_strlit("howdy/pam.py");
    let t = trim(l);
    lemma_trim_slice(l);
    if contains(t, "pam_howdy.so"@) {
        lemma_strip_comment(t, "pam_howdy.so"@);
    } else {
        lemma_strip_comment(t, "howdy/pam.py"@);
    }
}

/// The PAM stacks whose state the front end shows.
#[derive(Clone, Copy, Debug, PartialEq, Eq, Structural)]
pub enum PamStack {
    Sddm,
    Kde,
    Sudo,
    SystemLogin,
    PlasmaLogin,
    Polkit,
}

/// The file of each stack.
pub open spec fn stack_path(st: PamStack) -> Seq<char> {
    match st {
        PamStack::Sddm => PAM_SDDM@,
        PamStack::Kde => PAM_KDE@,
        PamStack::Sudo => PAM_SUDO@,
        PamStack::SystemLogin => PAM_SYSTEM_LOGIN@,
        PamStack::PlasmaLogin => PAM_PLASMA_LM@,
        PamStack::Polkit => PAM_POLKIT@,
    }
}

/// The stack that a file is, if it is one that the front end shows.
pub open spec fn stack_at(path: Seq<char>) -> Option<PamStack> {
    if path == PAM_SDDM@ {
        Some(PamStack::Sddm)
    } else if path == PAM_KDE@ {
        Some(PamStack::Kde)
    } else if path == PAM_SUDO@ {
        Some(PamStack::Sudo)
    } else if path == PAM_SYSTEM_LOGIN@ {
        Some(PamStack::SystemLogin)
    } else if path == PAM_PLASMA_LM@ {
        Some(PamStack::PlasmaLogin)
    } else if path == PAM_POLKIT@ {
        Some(PamStack::Polkit)
    } else {
        None
    }
}

pub fn stack_of(path: &str) -> (r: Option<PamStack>)
    ensures
        r == stack_at(path@),
{
    let p = chars_of(path);
    if eq_exec(&p, PAM_SDDM) {
        Some(PamStack::Sddm)
    } else if eq_exec(&p, PAM_KDE) {
        Some(PamStack::Kde)
    } else if eq_exec(&p, PAM_SUDO) {
        Some(PamStack::Sudo)
    } else if eq_exec(&p, PAM_SYSTEM_LOGIN) {
        Some(PamStack::SystemLogin)
    } else if eq_exec(&p, PAM_PLASMA_LM) {
        Some(PamStack::PlasmaLogin)
    } else if eq_exec(&p, PAM_POLKIT) {
        Some(PamStack::Polkit)
    } else {
        None
    }
}

/// Where the distribution keeps the default of a stack that has no override
/// under `/etc/pam.d/`: every `/etc/pam.d/` in the path becomes
/// `/usr/lib/pam.d/`.
pub fn vendor_pam_path(file_path: &str) -> (r: String)
    ensures
        r@ == replace_all(file_path@, "/etc/pam.d/"@, "/usr/lib/pam.d/"@),
{
    let v = replace_all_exec(&chars_of(file_path), "/etc/pam.d/", "/usr/lib/pam.d/");
    string_of(&v)
}

/// The file name of a path: what follows its last `/`.
pub fn pam_file_name(file_path: &str) -> (r: String)
    ensures
        r@ == after_last(file_path@, '/'),
{
    string_of(&after_last_exec(&chars_of(file_path), '/'))
}

/// The systemd drop-in that lets the polkit helper open cameras.
pub const POLKIT_OVERRIDE: &'static str = "[Service]\nPrivateDevices=no\nDeviceAllow=char-video4linux rw\n";

/// The `howdy` binary to configure: the one found, else `/usr/bin/howdy`.
pub fn howdy_or_default(found: Option<String>) -> (r: String)
    ensures
        found matches Some(p) ==> r == p,
        found is None ==> r@ == "/usr/bin/howdy"@,
{
    match found {
        Some(p) => p,
        None => String::from_str("/usr/bin/howdy"),
    }
}

/// The shell script that installs the edited polkit stack. Turning Howdy on
/// also sets Howdy up for the helper's sandbox (`h` is the `howdy` binary)
/// and installs the drop-in; turning it off removes the drop-in.
pub open spec fn polkit_script_spec(enabling: bool, h: Seq<char>) -> Seq<char> {
    if enabling {
        "cp /tmp/howdy_pam_tmp /etc/pam.d/polkit-1 && "@ + h + " set warn_no_device false && "@ + h
            + " set timeout_notice false && "@ + h
            + " set timeout 10 && mkdir -p '/etc/systemd/system/polkit-agent-helper@.service.d' && cp /tmp/howdy_polkit_override.conf '/etc/systemd/system/polkit-agent-helper@.service.d/override.conf' && systemctl daemon-reload && systemctl restart polkit-agent-helper.socket"@
    } else {
        "cp /tmp/howdy_pam_tmp /etc/pam.d/polkit-1 && rm -f '/etc/systemd/system/polkit-agent-helper@.service.d/override.conf' && systemctl daemon-reload && systemctl restart polkit-agent-helper.socket"@
    }
}

pub fn polkit_script(enabling: bool, howdy: &str) -> (r: String)
    ensures
        r@ == polkit_script_spec(enabling, howdy@),
{
    if enabling {
        let mut v = chars_of("cp /tmp/howdy_pam_tmp /etc/pam.d/polkit-1 && ");
        push_str(&mut v, howdy);
        push_str(&mut v, " set warn_no_device false && ");
        push_str(&mut v, howdy);
        push_str(&mut v, " set timeout_notice false && ");
        push_str(&mut v, howdy);
        push_str(
            &mut v,
            " set timeout 10 && mkdir -p '/etc/systemd/system/polkit-agent-helper@.service.d' && cp /tmp/howdy_polkit_override.conf '/etc/systemd/system/polkit-agent-helper@.service.d/override.conf' && systemctl daemon-reload && systemctl restart polkit-agent-helper.socket",
        );
        string_of(&v)
    } else {
        String::from_str(
            "cp /tmp/howdy_pam_tmp /etc/pam.d/polkit-1 && rm -f '/etc/systemd/system/polkit-agent-helper@.service.d/override.conf' && systemctl daemon-reload && systemctl restart polkit-agent-helper.socket",
        )
    }
}

/// Turning Howdy on in the polkit stack leaves a clean stack: exactly one of
/// its lines names Howdy, the full-path line, after the header if there is
/// one, else at the top.
pub proof fn lemma_polkit_canonical(content: Seq<char>)
    requires
        !howdy_active(content),
    ensures
        ({
            let out = lines(toggled_pam(content, true));
            let kept = lines(content).filter(|l: Seq<char>| keeps_no_howdy(l));
            let pos = insert_pos(kept);
            &&& 0 <= pos < out.len()
            &&& out[pos] == PAM_POLKIT_LINE@
            &&& forall|i: int| 0 <= i < out.len() ==> (mentions_howdy(trim(#[trigger] out[i])) <==> i == pos)
        }),
{
    let ls = lines(content);
    lemma_lines_lack_newline(content);
    lemma_enabling_lines();
    let kept = ls.filter(|l: Seq<char>| keeps_no_howdy(l));
    assert forall|i: int| 0 <= i < kept.len() implies lacks(#[trigger] kept[i], '\n') && keeps_no_howdy(kept[i]) by {
        ls.lemma_filter_contains_rev(|l: Seq<char>| keeps_no_howdy(l), kept[i]);
        ls.lemma_filter_pred(|l: Seq<char>| keeps_no_howdy(l), i);
        assert(kept.contains(kept[i]));
    }
    let line = PAM_POLKIT_LINE@;
    let pos = insert_pos(kept);
    let ins = insert_after_header(kept, line);
    kept.insert_ensures(pos, line);
    assert forall|i: int| 0 <= i < ins.len() implies lacks(#[trigger] ins[i], '\n') && (i != pos ==> keeps_no_howdy(ins[i])) by {
        if i < pos {
            assert(ins[i] == kept[i]);
        } else if i > pos {
            assert(ins[(i - 1) + 1] == kept[i - 1]);
        }
    }
    lemma_lines_of_unlines(ins);
    let out = lines(toggled_pam(content, true));
    assert(out == ins.map_values(|l: Seq<char>| strip_cr(l)));
    reveal_strlit("auth sufficient /lib/security/pam_howdy.so");
    assert(line.last() == 'o');
    assert(strip_cr(line) == line);
    assert forall|i: int| 0 <= i < out.len() implies (mentions_howdy(trim(#[trigger] out[i])) <==> i == pos) by {
        lemma_trim_strip_cr(ins[i]);
    }
}

/// Each stack is found again from its file.
pub proof fn lemma_stack_at_path(st: PamStack)
    ensures
        stack_at(stack_path(st)) == Some(st),
        (stack_path(st) == PAM_POLKIT@) == (st == PamStack::Polkit),
{
    reveal_strlit("/etc/pam.d/sddm");
    reveal_strlit("/etc/pam.d/kde");
    reveal_strlit("/etc/pam.d/sudo");
    reveal_strlit("/etc/pam.d/system-local-login");
    reveal_strlit("/etc/pam.d/plasmalogin");
    reveal_strlit("/etc/pam.d/polkit-1");
    let sddm = PAM_SDDM@;
    let kde = PAM_KDE@;
    let sudo = PAM_SUDO@;
    let login = PAM_SYSTEM_LOGIN@;
    let plasma = PAM_PLASMA_LM@;
    let polkit = PAM_POLKIT@;
    assert(sddm.len() == 15 && sudo.len() == 15 && kde.len() == 14 && login.len() == 29
        && plasma.len() == 22 && polkit.len() == 19);
    assert(sddm[12] != sudo[12]);
    assert(sddm != sudo);
}

} // verus!
