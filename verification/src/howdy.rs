//! Running the `howdy` command: what its outputs say, and the texts that the
//! front end shows for them.
use vstd::prelude::*;
use vstd::utf8::{decode_utf8, valid_utf8};
use crate::text::{chars_of, lemma_first_index_is, lemma_trailing_word_of, lemma_trim_end_at, lemma_trim_start_at, contains, contains_exec, last_word, last_word_exec, lines, lines_exec, push_all, push_str, starts_with, starts_with_exec, trim, trim_exec, views, trim_start, trim_end};
use crate::numbers::{
    decimal, decimal_exec, is_digit, lemma_parse_render, lemma_render_shape, parse_i32, parse_i32_exec,
    render_i32, render_i32_exec,
};
use crate::stdcalls::{lossy_text, lossy_utf8, lowercase, lowercase_of, string_of, utf8_text};

verus! {

/// What a finished command left: whether it exited successfully, its exit
/// code (none when a signal ended it), and what it wrote.
pub struct CommandOutput {
    pub success: bool,
    pub code: Option<i32>,
    pub stdout: Vec<u8>,
    pub stderr: Vec<u8>,
}

/// Running a command either gives its output or fails to start it, with the
/// system's error message.
pub type CommandResult = Result<CommandOutput, String>;

/// The path that `which howdy` printed: its trimmed standard output, when
/// the command succeeded, wrote valid UTF-8 and wrote something.
pub open spec fn located_howdy(which: Option<CommandOutput>) -> Option<Seq<char>> {
    match which {
        Some(o) => if o.success && valid_utf8(o.stdout@) && trim(decode_utf8(o.stdout@)).len() > 0 {
            Some(trim(decode_utf8(o.stdout@)))
        } else {
            None
        },
        None => None,
    }
}

/// Resolve the absolute path to the howdy binary from what `which howdy`
/// left (`None` when it could not be started).
pub fn find_howdy(which: &Option<CommandOutput>) -> (r: Option<String>)
    ensures
        r matches Some(p) ==> located_howdy(*which) == Some(p@),
        r is None ==> located_howdy(*which) is None,
{
    match which {
        Some(o) => {
            if !o.success {
                return None;
            }
            match utf8_text(&o.stdout) {
                Some(text) => {
                    let t = trim_exec(&chars_of(text.as_str()));
                    if t.len() > 0 {
                        Some(string_of(&t))
                    } else {
                        None
                    }
                },
                None => None,
            }
        },
        None => None,
    }
}

/// The listing of faces has to be asked for with elevated rights: asking
/// without them did not start or did not succeed.
pub fn needs_elevated_listing(unprivileged: &Option<CommandOutput>) -> (r: bool)
    ensures
        r == !(unprivileged matches Some(o) && o.success),
{
    match unprivileged {
        Some(o) => !o.success,
        None => true,
    }
}

/// Howdy said that no face is registered: its output (standard output, then
/// standard error), in lower case, says `no users` or `no models`.
pub open spec fn no_faces_reported(o: CommandOutput) -> bool {
    let combined = lowercase_of(lossy_utf8(o.stdout@) + lossy_utf8(o.stderr@));
    contains(combined, "no users"@) || contains(combined, "no models"@)
}

/// A line of `howdy list` that lists a face model: trimmed, it is not empty,
/// not the `ID` header, not a rule of `\u{2500}` or `-`, and starts with a digit.
pub open spec fn model_entry(l: Seq<char>) -> bool {
    let t = trim(l);
    &&& !(t.len() == 0 || starts_with(t, "ID"@) || contains(t, "\u{2500}\u{2500}"@) || contains(
        t,
        "---"@,
    ))
    &&& t.len() > 0
    &&& is_digit(t[0])
}

/// The face models that `howdy list` listed: its model lines, trimmed, in order.
pub open spec fn listed_models(stdout: Seq<char>) -> Seq<Seq<char>> {
    lines(stdout).filter(|l: Seq<char>| model_entry(l)).map_values(|l: Seq<char>| trim(l))
}

fn model_entry_exec(l: &Vec<char>) -> (r: bool)
    ensures
        r == model_entry(l@),
{
    let t = trim_exec(l);
    if t.len() == 0 || starts_with_exec(&t, "ID") || contains_exec(&t, "\u{2500}\u{2500}")
        || contains_exec(&t, "---") {
        return false;
    }
    '0' <= t[0] && t[0] <= '9'
}

/// The face models in the output of `howdy list`, each a trimmed line that
/// starts with its ID, and whether Howdy said that there are none.
pub fn parse_model_list(o: &CommandOutput) -> (r: (bool, Vec<String>))
    ensures
        r.0 == no_faces_reported(*o),
        !r.0 ==> r.1@.map_values(|s: String| s@) == listed_models(lossy_utf8(o.stdout@)),
        r.0 ==> r.1@.len() == 0,
{
    let out = lossy_text(&o.stdout);
    let err = lossy_text(&o.stderr);
    let mut both = out.clone();
    both.append(err.as_str());
    let low = lowercase(both.as_str());
    let lowv = chars_of(low.as_str());
    if contains_exec(&lowv, "no users") || contains_exec(&lowv, "no models") {
        return (true, Vec::new());
    }
    let ls = lines_exec(&chars_of(out.as_str()));
    let ghost all = lines(lossy_utf8(o.stdout@));
    let mut models: Vec<String> = Vec::new();
    let mut i: usize = 0;
    assert(all.take(0).filter(|l: Seq<char>| model_entry(l)) =~= Seq::<Seq<char>>::empty()) by {
        reveal(Seq::filter);
    }
    while i < ls.len()
        invariant
            i <= ls.len(),
            views(ls@) == all,
            models@.map_values(|s: String| s@) =~= all.take(i as int).filter(|l: Seq<char>| model_entry(l)).map_values(
                |l: Seq<char>| trim(l),
            ),
        decreases ls.len() - i,
    {
        assert(all[i as int] == ls@[i as int]@);
        assert(all.take(i + 1) =~= all.take(i as int).push(all[i as int]));
        proof {
            all.take(i as int).lemma_filter_push(all[i as int], |l: Seq<char>| model_entry(l));
        }
        let ghost before = models@;
        if model_entry_exec(&ls[i]) {
            let t = trim_exec(&ls[i]);
            models.push(string_of(&t));
            assert(model_entry(all[i as int]));
            assert(all.take(i + 1).filter(|l: Seq<char>| model_entry(l)) == all.take(i as int).filter(|l: Seq<char>| model_entry(l)).push(all[i as int]));
            assert(models@.map_values(|s: String| s@) =~= before.map_values(|s: String| s@).push(
                trim(all[i as int]),
            ));
            assert(all.take(i + 1).filter(|l: Seq<char>| model_entry(l)).map_values(|l: Seq<char>| trim(l)) =~= all.take(
                i as int,
            ).filter(|l: Seq<char>| model_entry(l)).map_values(|l: Seq<char>| trim(l)).push(trim(all[i as int])));
        } else {
            assert(!model_entry(all[i as int]));
            assert(all.take(i + 1).filter(|l: Seq<char>| model_entry(l)) == all.take(i as int).filter(|l: Seq<char>| model_entry(l)));
        }
        i = i + 1;
    }
    assert(all.take(i as int) =~= all);
    (false, models)
}

/// The status that a face listing leads to.
pub open spec fn faces_status(count: nat) -> Seq<char> {
    if count > 0 {
        "Found "@ + decimal(count) + " registered face(s)"@
    } else {
        "No faces registered"@
    }
}

pub fn faces_status_exec(count: usize) -> (r: String)
    ensures
        r@ == faces_status(count as nat),
{
    if count > 0 {
        let mut v = chars_of("Found ");
        let d = decimal_exec(count as u64);
        push_all(&mut v, &d);
        push_str(&mut v, " registered face(s)");
        string_of(&v)
    } else {
        String::from_str("No faces registered")
    }
}

/// The ID that `howdy add` reported for the new face: the last word of its
/// first line that starts (trimmed) with `Face added as `, read as an `i32`.
pub open spec fn added_face_id_in(ls: Seq<Seq<char>>) -> Option<i32>
    decreases ls.len(),
{
    if ls.len() == 0 {
        None
    } else if starts_with(trim(ls[0]), "Face added as "@) {
        match last_word(trim(ls[0])) {
            Some(w) => parse_i32(w),
            None => None,
        }
    } else {
        added_face_id_in(ls.drop_first())
    }
}

/// The ID of the face that `howdy add` registered, from its standard output.
pub fn added_face_id(stdout: &str) -> (r: Option<i32>)
    ensures
        r == added_face_id_in(lines(stdout@)),
{
    let ls = lines_exec(&chars_of(stdout));
    let ghost all = lines(stdout@);
    let mut i: usize = 0;
    assert(all.skip(0) =~= all);
    while i < ls.len()
        invariant
            i <= ls.len(),
            views(ls@) == all,
            all == lines(stdout@),
            added_face_id_in(all) == added_face_id_in(all.skip(i as int)),
        decreases ls.len() - i,
    {
        let t = trim_exec(&ls[i]);
        assert(all[i as int] == ls@[i as int]@);
        assert(all.skip(i as int)[0] == all[i as int]);
        assert(all.skip(i as int).drop_first() =~= all.skip(i + 1));
        if starts_with_exec(&t, "Face added as ") {
            return match last_word_exec(&t) {
                Some(w) => parse_i32_exec(&w),
                None => None,
            };
        }
        i = i + 1;
    }
    None
}

/// `{:?}` of an exit code: `Some(n)` or `None`.
pub open spec fn debug_code(code: Option<i32>) -> Seq<char> {
    match code {
        Some(n) => "Some("@ + render_i32(n) + ")"@,
        None => "None"@,
    }
}

/// The status that registering a face ends with, and the ID of the new face
/// when Howdy reported one.
pub open spec fn add_outcome_spec(outcome: CommandResult) -> (Seq<char>, Option<i32>) {
    match outcome {
        Ok(o) => if o.success {
            ("Face registered successfully"@, added_face_id_in(lines(lossy_utf8(o.stdout@))))
        } else {
            let combined = trim(lossy_utf8(o.stdout@) + lossy_utf8(o.stderr@));
            if combined.len() == 0 {
                ("Failed (exit code: "@ + debug_code(o.code) + ")"@, None)
            } else {
                ("Failed: "@ + combined, None)
            }
        },
        Err(e) => ("Failed: "@ + e@, None),
    }
}

/// The status that registering a face ends with, and the ID of the new face
/// (to be kept so that the face can be discarded).
pub fn add_outcome(outcome: &CommandResult) -> (r: (String, Option<i32>))
    ensures
        r.0@ == add_outcome_spec(*outcome).0,
        r.1 == add_outcome_spec(*outcome).1,
{
    match outcome {
        Ok(o) => {
            let out = lossy_text(&o.stdout);
            if o.success {
                let id = added_face_id(out.as_str());
                (String::from_str("Face registered successfully"), id)
            } else {
                let err = lossy_text(&o.stderr);
                let mut both = chars_of(out.as_str());
                push_str(&mut both, err.as_str());
                let combined = trim_exec(&both);
                if combined.len() == 0 {
                    let mut v = chars_of("Failed (exit code: ");
                    match o.code {
                        Some(n) => {
                            push_str(&mut v, "Some(");
                            let d = render_i32_exec(n);
                            push_all(&mut v, &d);
                            push_str(&mut v, ")");
                        },
                        None => {
                            push_str(&mut v, "None");
                        },
                    }
                    push_str(&mut v, ")");
                    (string_of(&v), None)
                } else {
                    let mut v = chars_of("Failed: ");
                    push_all(&mut v, &combined);
                    (string_of(&v), None)
                }
            }
        },
        Err(e) => {
            let mut v = chars_of("Failed: ");
            push_str(&mut v, e.as_str());
            (string_of(&v), None)
        },
    }
}

/// The argument that removes a face whose ID was kept as `saved`: the trimmed
/// text read as an `i32`, written back in decimal.
pub open spec fn face_id_argument_spec(saved: Seq<char>) -> Option<Seq<char>> {
    match parse_i32(trim(saved)) {
        Some(n) => Some(render_i32(n)),
        None => None,
    }
}

pub fn face_id_argument(saved: &str) -> (r: Option<String>)
    ensures
        r matches Some(a) ==> face_id_argument_spec(saved@) == Some(a@),
        r is None ==> face_id_argument_spec(saved@) is None,
{
    let t = trim_exec(&chars_of(saved));
    match parse_i32_exec(&t) {
        Some(n) => Some(string_of(&render_i32_exec(n))),
        None => None,
    }
}

/// `v4l2-ctl --list-devices` answered: `Some(listed)` when it ran and
/// succeeded (`listed`: it printed something besides whitespace), `None`
/// when the `/dev/v4l/by-path` directory has to be asked instead.
pub open spec fn v4l2_answer(o: Option<CommandOutput>) -> Option<bool> {
    match o {
        Some(out) => if out.success {
            Some(trim(lossy_utf8(out.stdout@)).len() > 0)
        } else {
            None
        },
        None => None,
    }
}

pub fn v4l2_lists_devices(o: &Option<CommandOutput>) -> (r: Option<bool>)
    ensures
        r == v4l2_answer(*o),
{
    match o {
        Some(out) => {
            if out.success {
                let text = lossy_text(&out.stdout);
                let t = trim_exec(&chars_of(text.as_str()));
                Some(t.len() > 0)
            } else {
                None
            }
        },
        None => None,
    }
}

/// The ID kept after `howdy add` is the number, any `i32`, that its first
/// report line `Face added as <n>` gives, whatever lines come before it
/// (none of them such a report) or after it.
pub proof fn lemma_added_face_id_reads_report(ls: Seq<Seq<char>>, k: int, n: i32)
    requires
        0 <= k < ls.len(),
        ls[k] == "Face added as "@ + render_i32(n),
        forall|j: int| 0 <= j < k ==> !starts_with(trim(#[trigger] ls[j]), "Face added as "@),
    ensures
        added_face_id_in(ls) == Some(n),
    decreases k,
{
    if k == 0 {
        reveal_strlit("Face added as ");
        let p = "Face added as "@;
        let r = render_i32(n);
        let l = p + r;
        lemma_render_shape(n);
        lemma_parse_render(n);
        assert(l[0] == 'F');
        lemma_trim_start_at(l, 0);
        assert(l.skip(0) =~= l);
        assert(l.skip(l.len() as int) =~= Seq::<char>::empty());
        assert(l[l.len() - 1] == r.last());
        lemma_trim_end_at(l, l.len() as int);
        assert(l.take(l.len() as int) =~= l);
        assert(trim(l) == l);
        assert(l.subrange(0, 14) =~= p);
        assert(p.last() == ' ');
        lemma_trailing_word_of(p, r);
        assert(last_word(l) == Some(r));
    } else {
        assert(ls.drop_first()[k - 1] == ls[k]);
        assert forall|j: int| 0 <= j < k - 1 implies !starts_with(trim(#[trigger] ls.drop_first()[j]), "Face added as "@) by {
            assert(ls.drop_first()[j] == ls[j + 1]);
        }
        lemma_added_face_id_reads_report(ls.drop_first(), k - 1, n);
        assert(!starts_with(trim(ls[0]), "Face added as "@));
    }
}

/// What `howdy add` prints as its report, `Face added as <n>`, gives back
/// the ID `n`, for every `i32`.
pub proof fn lemma_added_face_id_of_report(n: i32)
    ensures
        added_face_id_in(lines("Face added as "@ + render_i32(n))) == Some(n),
{
    reveal_strlit("Face added as ");
    let l = "Face added as "@ + render_i32(n);
    lemma_render_shape(n);
    assert forall|j: int| 0 <= j < l.len() implies l[j] != '\n' by {
        if j >= 14 {
            assert(l[j] == render_i32(n)[j - 14]);
        }
    }
    lemma_first_index_is(l, '\n', l.len() as int);
    assert(lines(l) == seq![l]);
    lemma_added_face_id_reads_report(seq![l], 0, n);
}

/// A face ID kept in decimal (as the background registration keeps it)
/// gives back the argument that removes that same face.
pub proof fn lemma_face_id_roundtrip(n: i32)
    ensures
        face_id_argument_spec(render_i32(n)) == Some(render_i32(n)),
{
    lemma_parse_render(n);
    lemma_render_shape(n);
    let s = render_i32(n);
    assert(trim_start(s) == s);
    assert(trim_end(s) == s);
}

} // verus!
