//! The Howdy configuration file (`config.ini`): whether Howdy is disabled,
//! which camera it is set to use, and the edit that sets the camera.
use vstd::prelude::*;
use crate::text::{chars_of, eq_exec, eq_ignore_ascii_case, eq_ignore_ascii_case_exec, is_white, lacks, lemma_first_index_is, lemma_lines_lack_newline, lemma_lines_lack, lemma_lines_of_unlines, lemma_trim_bounds, lemma_trim_end_at, lemma_trim_end_take, lemma_trim_start_at, lemma_trim_strip_cr, lines, lines_exec, second_field, second_field_exec, slice_of, starts_with, starts_with_exec, strip_cr, trim, trim_exec, unlines, unlines_exec, views};
use crate::stdcalls::string_of;

verus! {

/// The value of a `disabled` setting turns Howdy off: `true` in any ASCII
/// case, or `1`.
pub open spec fn disabling_value(v: Seq<char>) -> bool {
    eq_ignore_ascii_case(v, "true"@) || v == "1"@
}

/// Whether the configuration lines disable Howdy: the first line (trimmed)
/// that starts with `disabled` and has an `=` decides, by the trimmed text
/// between its first and second `=`; with no such line Howdy is enabled.
pub open spec fn disabled_in(ls: Seq<Seq<char>>) -> bool
    decreases ls.len(),
{
    if ls.len() == 0 {
        false
    } else {
        let t = trim(ls[0]);
        if starts_with(t, "disabled"@) && second_field(t, '=') is Some {
            disabling_value(trim(second_field(t, '=')->0))
        } else {
            disabled_in(ls.drop_first())
        }
    }
}

/// Check if howdy is disabled in config content.
pub fn is_howdy_disabled(config_content: &str) -> (b: bool)
    ensures
        b == disabled_in(lines(config_content@)),
{
    let ls = lines_exec(&chars_of(config_content));
    let ghost all = lines(config_content@);
    let mut i: usize = 0;
    assert(all.skip(0) =~= all);
    while i < ls.len()
        invariant
            i <= ls.len(),
            views(ls@) == all,
            all == lines(config_content@),
            disabled_in(all) == disabled_in(all.skip(i as int)),
        decreases ls.len() - i,
    {
        let t = trim_exec(&ls[i]);
        assert(all[i as int] == ls@[i as int]@);
        assert(all.skip(i as int)[0] == all[i as int]);
        assert(all.skip(i as int).drop_first() =~= all.skip(i + 1));
        if starts_with_exec(&t, "disabled") {
            match second_field_exec(&t, '=') {
                Some(v) => {
                    let val = trim_exec(&v);
                    assert(disabled_in(all.skip(i as int)) == disabling_value(val@));
                    return eq_ignore_ascii_case_exec(&val, "true") || eq_exec(&val, "1");
                },
                None => {},
            }
        }
        i = i + 1;
    }
    false
}

/// The line (already trimmed) is a `device_path` setting.
pub open spec fn device_path_line(t: Seq<char>) -> bool {
    starts_with(t, "device_path"@)
}

/// The camera that a `device_path` line (already trimmed) names: the trimmed
/// text between its first and second `=`, unless that is empty, `none` or
/// `null`.
pub open spec fn device_path_value(t: Seq<char>) -> Option<Seq<char>> {
    match second_field(t, '=') {
        Some(v) => {
            let d = trim(v);
            if d.len() > 0 && d != "none"@ && d != "null"@ {
                Some(d)
            } else {
                None
            }
        },
        None => None,
    }
}

/// The camera that configuration lines set: the first `device_path` line
/// decides.
pub open spec fn configured_in(ls: Seq<Seq<char>>) -> Option<Seq<char>>
    decreases ls.len(),
{
    if ls.len() == 0 {
        None
    } else if device_path_line(trim(ls[0])) {
        device_path_value(trim(ls[0]))
    } else {
        configured_in(ls.drop_first())
    }
}

/// The camera that the configuration text sets, if any.
pub open spec fn configured_device_of(content: Seq<char>) -> Option<Seq<char>> {
    configured_in(lines(content))
}

/// The camera (`device_path`) that a Howdy configuration sets, if it sets one
/// other than `none` or `null`.
pub fn configured_device(content: &str) -> (r: Option<String>)
    ensures
        r matches Some(d) ==> configured_device_of(content@) == Some(d@),
        r is None ==> configured_device_of(content@) is None,
{
    let ls = lines_exec(&chars_of(content));
    let ghost all = lines(content@);
    let mut i: usize = 0;
    assert(all.skip(0) =~= all);
    while i < ls.len()
        invariant
            i <= ls.len(),
            views(ls@) == all,
            all == lines(content@),
            configured_in(all) == configured_in(all.skip(i as int)),
        decreases ls.len() - i,
    {
        let t = trim_exec(&ls[i]);
        assert(all[i as int] == ls@[i as int]@);
        assert(all.skip(i as int)[0] == all[i as int]);
        assert(all.skip(i as int).drop_first() =~= all.skip(i + 1));
        if starts_with_exec(&t, "device_path") {
            match second_field_exec(&t, '=') {
                Some(v) => {
                    let d = trim_exec(&v);
                    assert(configured_in(all.skip(i as int)) == device_path_value(t@));
                    if d.len() > 0 && !eq_exec(&d, "none") && !eq_exec(&d, "null") {
                        return Some(string_of(&d));
                    }
                },
                None => {},
            }
            assert(configured_in(all.skip(i as int)) == device_path_value(t@));
            return None;
        }
        i = i + 1;
    }
    None
}

/// The configuration line that sets the camera `d`.
pub open spec fn device_setting(d: Seq<char>) -> Seq<char> {
    "device_path = "@ + d
}

/// A line that a new camera setting replaces: a `device_path` line that is
/// not commented out.
pub open spec fn replaced_by_setting(l: Seq<char>) -> bool {
    let t = trim(l);
    !(t.len() > 0 && t[0] == '#') && device_path_line(t)
}

/// A line after the camera edit.
pub open spec fn set_device_line(l: Seq<char>, d: Seq<char>) -> Seq<char> {
    if replaced_by_setting(l) {
        device_setting(d)
    } else {
        l
    }
}

/// The configuration text after setting the camera to `d`: every
/// `device_path` line becomes `device_path = d`, or the setting is appended
/// when there is none; the lines are written back joined by `'\n'`, with a
/// final `'\n'`.
pub open spec fn with_device(content: Seq<char>, d: Seq<char>) -> Seq<char> {
    let ls = lines(content);
    let m = ls.map_values(|l: Seq<char>| set_device_line(l, d));
    if exists|i: int| 0 <= i < ls.len() && replaced_by_setting(#[trigger] ls[i]) {
        unlines(m)
    } else {
        unlines(m.push(device_setting(d)))
    }
}

/// Replace the device_path line of a Howdy configuration, or append it if absent.
pub fn update_device_path(content: &str, device: &str) -> (r: String)
    ensures
        r@ == with_device(content@, device@),
{
    let ls = lines_exec(&chars_of(content));
    let ghost all = lines(content@);
    let ghost d = device@;
    let setting = {
        let mut s = chars_of("device_path = ");
        let dv = chars_of(device);
        let mut j: usize = 0;
        let ghost pre = s@;
        while j < dv.len()
            invariant
                j <= dv.len(),
                s@ == pre + dv@.take(j as int),
            decreases dv.len() - j,
        {
            s.push(dv[j]);
            j = j + 1;
            assert(s@ =~= pre + dv@.take(j as int));
        }
        assert(dv@.take(j as int) =~= dv@);
        s
    };
    assert(setting@ == device_setting(d));
    let mut out: Vec<Vec<char>> = Vec::new();
    let mut found = false;
    let mut i: usize = 0;
    while i < ls.len()
        invariant
            i <= ls.len(),
            views(ls@) == all,
            setting@ == device_setting(d),
            views(out@) =~= all.take(i as int).map_values(|l: Seq<char>| set_device_line(l, d)),
            found == exists|k: int| 0 <= k < i && replaced_by_setting(#[trigger] all[k]),
        decreases ls.len() - i,
    {
        let t = trim_exec(&ls[i]);
        assert(all[i as int] == ls@[i as int]@);
        let ghost before = out@;
        let x = if !(t.len() > 0 && t[0] == '#') && starts_with_exec(&t, "device_path") {
            found = true;
            slice_of(&setting, 0, setting.len())
        } else {
            slice_of(&ls[i], 0, ls[i].len())
        };
        assert(setting@.subrange(0, setting@.len() as int) =~= setting@);
        assert(ls@[i as int]@.subrange(0, ls@[i as int]@.len() as int) =~= ls@[i as int]@);
        out.push(x);
        assert(views(out@) =~= views(before).push(x@));
        assert(all.take(i + 1) =~= all.take(i as int).push(all[i as int]));
        i = i + 1;
    }
    assert(all.take(i as int) =~= all);
    if !found {
        let ghost before = out@;
        out.push(setting);
        assert(views(out@) =~= views(before).push(device_setting(d)));
    }
    let text = unlines_exec(&out);
    string_of(&text)
}

/// A camera that a `device_path` line gives back: free of `=` and of line
/// breaks, and, once trimmed, neither empty nor `none` nor `null`.
pub open spec fn readable_device(d: Seq<char>) -> bool {
    &&& lacks(d, '=')
    &&& lacks(d, '\n')
    &&& trim(d).len() > 0
    &&& trim(d) != "none"@
    &&& trim(d) != "null"@
}

/// Setting the camera and then reading the configuration back gives that
/// camera, trimmed.
pub proof fn lemma_device_read_after_write(content: Seq<char>, d: Seq<char>)
    requires
        readable_device(d),
    ensures
        configured_device_of(with_device(content, d)) == Some(trim(d)),
{
    let ls = lines(content);
    lemma_lines_lack_newline(content);
    lemma_device_setting(d);
    let m = ls.map_values(|l: Seq<char>| set_device_line(l, d));
    assert forall|i: int| 0 <= i < m.len() implies lacks(#[trigger] m[i], '\n') by {
        assert(lacks(ls[i], '\n'));
    }
    if exists|i: int| 0 <= i < ls.len() && replaced_by_setting(#[trigger] ls[i]) {
        lemma_lines_of_unlines(m);
        lemma_reads_setting(ls, d);
    } else {
        let out = m.push(device_setting(d));
        assert forall|i: int| 0 <= i < out.len() implies lacks(#[trigger] out[i], '\n') by {
            if i < m.len() {
                assert(out[i] == m[i]);
            }
        }
        lemma_lines_of_unlines(out);
        lemma_reads_appended(ls, d);
        assert(m =~= ls);
    }
}

/// Setting the camera to `d` rewrites the configuration line by line: each
/// line whose trimmed text starts with `device_path` becomes
/// `device_path = d`, every other line (comments included) stays exactly as
/// it was, and `device_path = d` is added as a last line only where no line
/// was a `device_path` setting.
pub proof fn lemma_device_edit_lines(content: Seq<char>, d: Seq<char>) -> (out: Seq<Seq<char>>)
    ensures
        with_device(content, d) == unlines(out),
        out.len() == lines(content).len() || out.len() == lines(content).len() + 1,
        forall|i: int| 0 <= i < lines(content).len() ==> #[trigger] out[i] == if starts_with(
            trim(lines(content)[i]),
            "device_path"@,
        ) {
            "device_path = "@ + d
        } else {
            lines(content)[i]
        },
        (out.len() == lines(content).len() + 1) == (forall|i: int|
            0 <= i < lines(content).len() ==> !starts_with(trim(#[trigger] lines(content)[i]), "device_path"@)),
        out.len() == lines(content).len() + 1 ==> out.last() == "device_path = "@ + d,
{
    reveal_strlit("device_path");
    let ls = lines(content);
    let m = ls.map_values(|l: Seq<char>| set_device_line(l, d));
    assert forall|i: int| 0 <= i < ls.len() implies replaced_by_setting(#[trigger] ls[i]) == starts_with(
        trim(ls[i]),
        "device_path"@,
    ) by {
        let t = trim(ls[i]);
        if starts_with(t, "device_path"@) {
            assert(t.take(11)[0] == t[0]);
            assert("device_path"@[0] == 'd');
        }
    }
    if exists|i: int| 0 <= i < ls.len() && replaced_by_setting(#[trigger] ls[i]) {
        m
    } else {
        let out = m.push(device_setting(d));
        assert forall|i: int| 0 <= i < ls.len() implies #[trigger] out[i] == m[i] by {}
        out
    }
}

/// Setting the same camera twice gives the text that setting it once gave.
pub proof fn lemma_device_write_idempotent(content: Seq<char>, d: Seq<char>)
    requires
        lacks(content, '\r'),
        lacks(d, '\r'),
        lacks(d, '\n'),
    ensures
        with_device(with_device(content, d), d) == with_device(content, d),
{
    let ls = lines(content);
    let dd = device_setting(d);
    lemma_setting_replaced(d);
    lemma_lines_lack_newline(content);
    lemma_lines_lack(content, '\r');
    let m = ls.map_values(|l: Seq<char>| set_device_line(l, d));
    let found = exists|i: int| 0 <= i < ls.len() && replaced_by_setting(#[trigger] ls[i]);
    let out = if found { m } else { m.push(dd) };
    assert(lacks(dd, '\n') && lacks(dd, '\r')) by {
        reveal_strlit("device_path = ");
        assert forall|j: int| 0 <= j < dd.len() implies dd[j] != '\n' && dd[j] != '\r' by {
            if j >= 14 {
                assert(dd[j] == d[j - 14]);
            }
        }
    }
    assert(with_device(content, d) == unlines(out));
    assert forall|i: int| 0 <= i < out.len() implies lacks(#[trigger] out[i], '\n') && lacks(out[i], '\r')
        && set_device_line(out[i], d) == out[i] by {
        if i < m.len() {
            assert(out[i] == m[i]);
            assert(m[i] == set_device_line(ls[i], d));
            assert(lacks(ls[i], '\n'));
            assert(lacks(ls[i], '\r'));
        } else {
            assert(out[i] == dd);
        }
    }
    assert(exists|i: int| 0 <= i < out.len() && replaced_by_setting(#[trigger] out[i])) by {
        if found {
            let i = choose|i: int| 0 <= i < ls.len() && replaced_by_setting(#[trigger] ls[i]);
            assert(out[i] == dd);
        } else {
            assert(out[m.len() as int] == dd);
        }
    }
    lemma_lines_of_unlines(out);
    let ls2 = lines(unlines(out));
    assert(ls2 =~= out) by {
        assert forall|i: int| 0 <= i < out.len() implies strip_cr(#[trigger] out[i]) == out[i] by {
            if out[i].len() > 0 {
                assert(out[i].last() == out[i][out[i].len() - 1]);
            }
        }
    }
    assert(ls2.map_values(|l: Seq<char>| set_device_line(l, d)) =~= out);
}

/// The setting line is a line that a camera edit replaces.
proof fn lemma_setting_replaced(d: Seq<char>)
    ensures
        replaced_by_setting(device_setting(d)),
{
    reveal_strlit("device_path = ");
    reveal_strlit("device_path");
    let s = device_setting(d);
    assert(s.len() == 14 + d.len());
    lemma_trim_start_at(s, 0);
    assert(s.skip(0) =~= s);
    let k = lemma_trim_end_take(s);
    if k <= 12 {
        assert(s.skip(k)[12 - k] == s[12]);
    }
    assert(trim(s) == s.take(k));
    assert(s.take(k).take(11) =~= "device_path"@);
}

/// The setting line reads back as the camera it sets, trimmed.
proof fn lemma_device_setting(d: Seq<char>)
    requires
        readable_device(d),
    ensures
        lacks(device_setting(d), '\n'),
        device_path_line(trim(strip_cr(device_setting(d)))),
        device_path_value(trim(strip_cr(device_setting(d)))) == Some(trim(d)),
        replaced_by_setting(device_setting(d)),
{
    reveal_strlit("device_path = ");
    reveal_strlit("device_path");
    let s = device_setting(d);
    assert(s.len() == 14 + d.len());
    assert forall|j: int| 0 <= j < s.len() implies s[j] != '\n' by {
        if j >= 14 {
            assert(s[j] == d[j - 14]);
        }
    }
    lemma_trim_strip_cr(s);
    let (a, b) = lemma_trim_bounds(d);
    assert(a < b);
    // `s` starts with a letter and ends where `d` stops being whitespace.
    lemma_trim_start_at(s, 0);
    assert(s.skip(0) =~= s);
    assert(s.skip(14 + b) =~= d.skip(b));
    assert(s[14 + b - 1] == d[b - 1]);
    lemma_trim_end_at(s, 14 + b);
    let t = s.take(14 + b);
    assert(trim(s) == t);
    assert(t.take(11) =~= "device_path"@);
    lemma_setting_replaced(d);
    // The text after the first `=`.
    assert forall|j: int| 0 <= j < 12 implies t[j] != '=' by {}
    assert(t[12] == '=');
    lemma_first_index_is(t, '=', 12);
    let rest = t.skip(13);
    assert(rest =~= seq![' '] + d.take(b));
    assert forall|j: int| 0 <= j < rest.len() implies rest[j] != '=' by {
        if j > 0 {
            assert(rest[j] == d[j - 1]);
        }
    }
    lemma_first_index_is(rest, '=', rest.len() as int);
    assert(rest.take(rest.len() as int) =~= rest);
    assert(second_field(t, '=') == Some(rest));
    // Trimming it leaves the trimmed camera.
    assert forall|j: int| 0 <= j < a + 1 implies is_white(#[trigger] rest.take(a + 1)[j]) by {
        if j > 0 {
            assert(rest.take(a + 1)[j] == d.take(a)[j - 1]);
        }
    }
    assert(rest[a + 1] == d[a]);
    lemma_trim_start_at(rest, a + 1);
    let x = rest.skip(a + 1);
    assert(x =~= d.subrange(a, b));
    assert(x.skip(x.len() as int) =~= Seq::<char>::empty());
    assert(x[x.len() - 1] == d[b - 1]);
    lemma_trim_end_at(x, x.len() as int);
    assert(x.take(x.len() as int) =~= x);
    assert(trim(rest) == trim(d));
}

/// Reading lines in which some line gets replaced by the setting finds it.
proof fn lemma_reads_setting(ls: Seq<Seq<char>>, d: Seq<char>)
    requires
        readable_device(d),
        exists|i: int| 0 <= i < ls.len() && replaced_by_setting(#[trigger] ls[i]),
    ensures
        configured_in(
            ls.map_values(|l: Seq<char>| set_device_line(l, d)).map_values(
                |l: Seq<char>| strip_cr(l),
            ),
        ) == Some(trim(d)),
    decreases ls.len(),
{
    lemma_device_setting(d);
    let q = ls.map_values(|l: Seq<char>| set_device_line(l, d)).map_values(
        |l: Seq<char>| strip_cr(l),
    );
    let l0 = ls[0];
    assert(q[0] == strip_cr(set_device_line(l0, d)));
    if replaced_by_setting(l0) {
        assert(q[0] == strip_cr(device_setting(d)));
    } else {
        lemma_trim_strip_cr(l0);
        assert(q[0] == strip_cr(l0));
        let t = trim(l0);
        if device_path_line(t) {
            reveal_strlit("device_path");
            assert(t.take(11)[0] == t[0]);
            assert("device_path"@[0] == 'd');
        }
        assert(!device_path_line(trim(q[0])));
        let rest = ls.drop_first();
        assert(exists|i: int| 0 <= i < rest.len() && replaced_by_setting(#[trigger] rest[i])) by {
            let i = choose|i: int| 0 <= i < ls.len() && replaced_by_setting(#[trigger] ls[i]);
            assert(rest[i - 1] == ls[i]);
        }
        lemma_reads_setting(rest, d);
        assert(q.drop_first() =~= rest.map_values(|l: Seq<char>| set_device_line(l, d)).map_values(
            |l: Seq<char>| strip_cr(l),
        ));
    }
}

/// Reading lines without a `device_path` setting followed by the appended
/// setting finds it.
proof fn lemma_reads_appended(ls: Seq<Seq<char>>, d: Seq<char>)
    requires
        readable_device(d),
        !exists|i: int| 0 <= i < ls.len() && replaced_by_setting(#[trigger] ls[i]),
    ensures
        ls.map_values(|l: Seq<char>| set_device_line(l, d)) == ls,
        configured_in(ls.push(device_setting(d)).map_values(|l: Seq<char>| strip_cr(l))) == Some(trim(d)),
    decreases ls.len(),
{
    lemma_device_setting(d);
    assert(ls.map_values(|l: Seq<char>| set_device_line(l, d)) =~= ls) by {
        assert forall|i: int| 0 <= i < ls.len() implies set_device_line(ls[i], d) == ls[i] by {
            assert(!replaced_by_setting(ls[i]));
        }
    }
    let q = ls.push(device_setting(d)).map_values(|l: Seq<char>| strip_cr(l));
    if ls.len() == 0 {
        assert(q[0] == strip_cr(device_setting(d)));
    } else {
        let l0 = ls[0];
        assert(!replaced_by_setting(l0));
        lemma_trim_strip_cr(l0);
        assert(q[0] == strip_cr(l0));
        let t = trim(l0);
        if device_path_line(t) {
            reveal_strlit("device_path");
            assert(t.take(11)[0] == t[0]);
            assert("device_path"@[0] == 'd');
        }
        let rest = ls.drop_first();
        assert(!exists|i: int| 0 <= i < rest.len() && replaced_by_setting(#[trigger] rest[i])) by {
            if exists|i: int| 0 <= i < rest.len() && replaced_by_setting(#[trigger] rest[i]) {
                let i = choose|i: int| 0 <= i < rest.len() && replaced_by_setting(#[trigger] rest[i]);
                assert(ls[i + 1] == rest[i]);
            }
        }
        lemma_reads_appended(rest, d);
        assert(q.drop_first() =~= rest.push(device_setting(d)).map_values(|l: Seq<char>| strip_cr(l)));
    }
}

} // verus!
