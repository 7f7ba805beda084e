//! The text of confirmations, reports and labels: which message of the
//! catalogue each is, and how the names and numbers it mentions are filled
//! into the template the translator gives for it.
use crate::catalog::answered_bool;
use crate::i18n::{can_translate, counted, fixed, msg_view, plural_count, text_of, translated, Message};
use crate::text::{decimal, decimal_text, replace_all, replace_text};
use vstd::prelude::*;
use vstd::string::StringExecFns;

verus! {

/// The view of an optional string slice.
pub open spec fn opt_view(o: Option<&str>) -> Option<Seq<char>> {
    match o {
        Some(s) => Some(s@),
        None => None,
    }
}

/// `template` with `{name}` filled in by `value`, as `str::replace` fills it.
pub open spec fn fill(template: Seq<char>, name: Seq<char>, value: Seq<char>) -> Seq<char> {
    replace_all(template, name, value)
}

/// `template` with `{name}` filled in by `value` where there is a value.
pub open spec fn fill_opt(template: Seq<char>, name: Seq<char>, value: Option<Seq<char>>) -> Seq<
    char,
> {
    match value {
        Some(v) => fill(template, name, v),
        None => template,
    }
}

/// `template` with the placeholder `name` filled in by `value`.
pub fn fill_placeholder(template: &str, name: &str, value: &str) -> (r: String)
    requires
        name@.len() > 0,
    ensures
        r@ == fill(template@, name@, value@),
{
    replace_text(template, name, value)
}

/// `template` with `{count}` filled in by `count`.
pub fn fill_count(template: &str, count: usize) -> (r: String)
    ensures
        r@ == fill(template@, "{count}"@, decimal(count as nat)),
{
    proof {
        reveal_strlit("{count}");
    }
    replace_text(template, "{count}", decimal_text(count).as_str())
}

/// The heading of the confirmation for a bulk assignment: one message for a
/// media group, another for everything the application supports.
pub open spec fn assign_heading_msg(group: Option<Seq<char>>) -> (Seq<char>, Option<(Seq<char>, u32)>) {
    match group {
        Some(_) => fixed("Use {app} for {group}?"@),
        None => fixed("Use {app} for All Supported Types?"@),
    }
}

/// The message of the heading of the confirmation for a bulk assignment.
pub fn assign_heading_message(group: Option<&str>) -> (m: Message)
    ensures
        msg_view(m) == assign_heading_msg(opt_view(group)),
{
    match group {
        Some(_) => Message { id: "Use {app} for {group}?", plural: None },
        None => Message { id: "Use {app} for All Supported Types?", plural: None },
    }
}

/// The body of the confirmation for a bulk assignment: that the application
/// already opens all `total` types, or how many of them it would take over;
/// its form is picked by `total`.
pub open spec fn assign_body_msg(group: Option<Seq<char>>, total: nat, changing: nat) -> (
    Seq<char>,
    Option<(Seq<char>, u32)>,
) {
    if changing == 0 {
        match group {
            Some(_) => counted(
                "{app} already opens the one {group} file type."@,
                "{app} already opens all {total} of those {group} file types."@,
                total,
            ),
            None => counted(
                "{app} already opens the one file type it supports."@,
                "{app} already opens all {total} of those file types."@,
                total,
            ),
        }
    } else {
        match group {
            Some(_) => counted(
                "{app} supports the one {group} file type and would take it over from another application."@,
                "{app} supports {total} {group} file types and would take over {changing} of them from another application."@,
                total,
            ),
            None => counted(
                "{app} supports the one file type and would take it over from another application."@,
                "{app} supports {total} file types and would take over {changing} of them from another application."@,
                total,
            ),
        }
    }
}

/// The message of the body of the confirmation for a bulk assignment.
pub fn assign_body_message(group: Option<&str>, total: usize, changing: usize) -> (m: Message)
    ensures
        msg_view(m) == assign_body_msg(opt_view(group), total as nat, changing as nat),
{
    let n = plural_count(total);
    if changing == 0 {
        match group {
            Some(_) => Message {
                id: "{app} already opens the one {group} file type.",
                plural: Some(("{app} already opens all {total} of those {group} file types.", n)),
            },
            None => Message {
                id: "{app} already opens the one file type it supports.",
                plural: Some(("{app} already opens all {total} of those file types.", n)),
            },
        }
    } else {
        match group {
            Some(_) => Message {
                id: "{app} supports the one {group} file type and would take it over from another application.",
                plural: Some(("{app} supports {total} {group} file types and would take over {changing} of them from another application.", n)),
            },
            None => Message {
                id: "{app} supports the one file type and would take it over from another application.",
                plural: Some(("{app} supports {total} file types and would take over {changing} of them from another application.", n)),
            },
        }
    }
}

/// The heading of the confirmation, from its translated template: `{app}`,
/// then `{group}` where there is one, filled in.
pub open spec fn assign_heading_fill(template: Seq<char>, app: Seq<char>, group: Option<Seq<char>>) -> Seq<char> {
    fill_opt(fill(template, "{app}"@, app), "{group}"@, group)
}

/// The body of the confirmation, from its translated template: `{app}`,
/// `{group}` where there is one, `{total}` and `{changing}` filled in.
pub open spec fn assign_body_fill(
    template: Seq<char>,
    app: Seq<char>,
    group: Option<Seq<char>>,
    total: nat,
    changing: nat,
) -> Seq<char> {
    fill(
        fill(assign_heading_fill(template, app, group), "{total}"@, decimal(total)),
        "{changing}"@,
        decimal(changing),
    )
}

/// The heading of the confirmation, given its translated template.
pub fn fill_assign_heading(template: &str, app: &str, group: Option<&str>) -> (r: String)
    ensures
        r@ == assign_heading_fill(template@, app@, opt_view(group)),
{
    proof {
        reveal_strlit("{app}");
        reveal_strlit("{group}");
    }
    let a = replace_text(template, "{app}", app);
    match group {
        Some(g) => replace_text(a.as_str(), "{group}", g),
        None => a,
    }
}

/// The body of the confirmation, given its translated template.
pub fn fill_assign_body(template: &str, app: &str, group: Option<&str>, total: usize, changing: usize) -> (r: String)
    ensures
        r@ == assign_body_fill(template@, app@, opt_view(group), total as nat, changing as nat),
{
    proof {
        reveal_strlit("{total}");
        reveal_strlit("{changing}");
    }
    let with_group = fill_assign_heading(template, app, group);
    let with_total = replace_text(with_group.as_str(), "{total}", decimal_text(total).as_str());
    replace_text(with_total.as_str(), "{changing}", decimal_text(changing).as_str())
}

/// Bulk assignment rewrites a lot of the user's configuration, so it is confirmed
/// first and the message says how many types would change hands: the heading
/// and the body of that confirmation, each the template `tr` gives for its
/// message, filled in.
pub fn assign_prompt<T: Fn(&Message) -> String>(
    app: &str,
    group: Option<&str>,
    total: usize,
    changing: usize,
    tr: &T,
) -> (r: (String, String))
    requires
        can_translate(*tr),
    ensures
        exists|t: Seq<char>|
            #[trigger] translated(*tr, assign_heading_msg(opt_view(group)), t) && r.0@
                == assign_heading_fill(t, app@, opt_view(group)),
        exists|t: Seq<char>|
            #[trigger] translated(
                *tr,
                assign_body_msg(opt_view(group), total as nat, changing as nat),
                t,
            ) && r.1@ == assign_body_fill(t, app@, opt_view(group), total as nat, changing as nat),
{
    let hm = assign_heading_message(group);
    let ht = text_of(tr, &hm);
    let heading = fill_assign_heading(ht.as_str(), app, group);
    let bm = assign_body_message(group, total, changing);
    let bt = text_of(tr, &bm);
    let body = fill_assign_body(bt.as_str(), app, group, total, changing);
    (heading, body)
}

/// How many of the first `n` answers are "no".
pub open spec fn count_false(flags: Seq<bool>, n: int) -> nat
    decreases n,
{
    if n <= 0 {
        0
    } else {
        count_false(flags, n - 1) + if flags[n - 1] {
            0nat
        } else {
            1nat
        }
    }
}

/// How many of `mimes` the application does not open yet, asking
/// `already_default` about each once.
pub fn count_changing<A: Fn(&str) -> bool>(mimes: &[&String], already_default: A) -> (r: usize)
    requires
        forall|s: &str| #[trigger] call_requires(already_default, (s,)),
    ensures
        exists|flags: Seq<bool>|
            #![trigger count_false(flags, mimes@.len() as int)]
            flags.len() == mimes@.len() && (forall|i: int|
                0 <= i < mimes@.len() ==> answered_bool(
                    already_default,
                    mimes@[i]@,
                    #[trigger] flags[i],
                )) && r == count_false(flags, mimes@.len() as int),
{
    let mut r: usize = 0;
    let ghost mut flags: Seq<bool> = Seq::empty();
    let mut i: usize = 0;
    while i < mimes.len()
        invariant
            i <= mimes@.len(),
            flags.len() == i,
            r <= i,
            forall|s: &str| #[trigger] call_requires(already_default, (s,)),
            forall|k: int| 0 <= k < i ==> answered_bool(already_default, mimes@[k]@, #[trigger] flags[k]),
            r == count_false(flags, i as int),
        decreases mimes@.len() - i,
    {
        let b = already_default(mimes[i].as_str());
        assert(answered_bool(already_default, mimes@[i as int]@, b));
        let ghost before = flags;
        proof {
            flags = flags.push(b);
            assert(forall|k: int| 0 <= k < i ==> flags[k] == before[k]);
            assert(count_false(flags, i as int) == count_false(before, i as int)) by {
                lemma_count_false_prefix(before, flags, i as int);
            }
        }
        if !b {
            r = r + 1;
        }
        i = i + 1;
    }
    r
}

proof fn lemma_count_false_prefix(a: Seq<bool>, b: Seq<bool>, n: int)
    requires
        n <= a.len(),
        n <= b.len(),
        forall|k: int| 0 <= k < n ==> a[k] == b[k],
    ensures
        count_false(a, n) == count_false(b, n),
    decreases n,
{
    if n > 0 {
        lemma_count_false_prefix(a, b, n - 1);
    }
}

/// The confirmation for assigning `mimes` to the application `app`, or
/// nothing to confirm when there are no types: its heading, and a body that
/// counts the types the application does not open yet, `already_default`
/// being asked about each; each text is the template `tr` gives for its
/// message, filled in.
pub fn assign_confirmation<A: Fn(&str) -> bool, T: Fn(&Message) -> String>(
    app: &str,
    group: Option<&str>,
    mimes: &[&String],
    already_default: A,
    tr: &T,
) -> (r: Option<(String, String)>)
    requires
        forall|s: &str| #[trigger] call_requires(already_default, (s,)),
        can_translate(*tr),
    ensures
        r is None <==> mimes@.len() == 0,
        r matches Some(t) ==> exists|h: Seq<char>|
            #[trigger] translated(*tr, assign_heading_msg(opt_view(group)), h) && t.0@
                == assign_heading_fill(h, app@, opt_view(group)),
        r matches Some(t) ==> exists|flags: Seq<bool>, b: Seq<char>|
            #![trigger count_false(flags, mimes@.len() as int), translated(*tr, assign_body_msg(opt_view(group), mimes@.len(), count_false(flags, mimes@.len() as int)), b)]
            flags.len() == mimes@.len() && (forall|i: int|
                0 <= i < mimes@.len() ==> answered_bool(
                    already_default,
                    mimes@[i]@,
                    #[trigger] flags[i],
                )) && translated(
                *tr,
                assign_body_msg(opt_view(group), mimes@.len(), count_false(flags, mimes@.len() as int)),
                b,
            ) && t.1@ == assign_body_fill(
                b,
                app@,
                opt_view(group),
                mimes@.len(),
                count_false(flags, mimes@.len() as int),
            ),
{
    let total = mimes.len();
    if total == 0 {
        return None;
    }
    let changing = count_changing(mimes, already_default);
    Some(assign_prompt(app, group, total, changing, tr))
}

/// The body of the confirmation for resetting `count` types.
pub open spec fn reset_all_body_msg(count: nat) -> (Seq<char>, Option<(Seq<char>, u32)>) {
    counted(
        "{count} file type goes back to the application the system chose."@,
        "{count} file types go back to the application the system chose."@,
        count,
    )
}

/// The message of the body of the confirmation for resetting `count` types.
pub fn reset_all_body_message(count: usize) -> (m: Message)
    ensures
        msg_view(m) == reset_all_body_msg(count as nat),
{
    Message {
        id: "{count} file type goes back to the application the system chose.",
        plural: Some(("{count} file types go back to the application the system chose.", plural_count(count))),
    }
}

/// "`count` file types go back to the application the system chose.", in
/// the form the locale uses for `count`: the template `tr` gives, with
/// `{count}` filled in.
pub fn reset_all_body<T: Fn(&Message) -> String>(count: usize, tr: &T) -> (r: String)
    requires
        can_translate(*tr),
    ensures
        exists|t: Seq<char>|
            #[trigger] translated(*tr, reset_all_body_msg(count as nat), t) && r@ == fill(
                t,
                "{count}"@,
                decimal(count as nat),
            ),
{
    let m = reset_all_body_message(count);
    let t = text_of(tr, &m);
    fill_count(t.as_str(), count)
}

/// The report after resetting `count` types.
pub open spec fn reset_all_done_msg(count: nat) -> (Seq<char>, Option<(Seq<char>, u32)>) {
    counted("Reset {count} file type"@, "Reset {count} file types"@, count)
}

/// The message of the report after resetting `count` types.
pub fn reset_all_done_message(count: usize) -> (m: Message)
    ensures
        msg_view(m) == reset_all_done_msg(count as nat),
{
    Message { id: "Reset {count} file type", plural: Some(("Reset {count} file types", plural_count(count))) }
}

/// "Reset `count` file types", in the form the locale uses for `count`: the
/// template `tr` gives, with `{count}` filled in.
pub fn reset_all_done<T: Fn(&Message) -> String>(count: usize, tr: &T) -> (r: String)
    requires
        can_translate(*tr),
    ensures
        exists|t: Seq<char>|
            #[trigger] translated(*tr, reset_all_done_msg(count as nat), t) && r@ == fill(
                t,
                "{count}"@,
                decimal(count as nat),
            ),
{
    let m = reset_all_done_message(count);
    let t = text_of(tr, &m);
    fill_count(t.as_str(), count)
}

/// The heading of a category's chooser.
pub open spec fn default_heading_msg() -> (Seq<char>, Option<(Seq<char>, u32)>) {
    fixed("Default {title}"@)
}

/// The message of the heading of a category's chooser.
pub fn default_heading_message() -> (m: Message)
    ensures
        msg_view(m) == default_heading_msg(),
{
    Message { id: "Default {title}", plural: None }
}

/// "Default `title`", the heading of a category's chooser: the template
/// `tr` gives, with `{title}` filled in.
pub fn default_heading<T: Fn(&Message) -> String>(title: &str, tr: &T) -> (r: String)
    requires
        can_translate(*tr),
    ensures
        exists|t: Seq<char>|
            #[trigger] translated(*tr, default_heading_msg(), t) && r@ == fill(t, "{title}"@, title@),
{
    proof {
        reveal_strlit("{title}");
    }
    let m = default_heading_message();
    let t = text_of(tr, &m);
    fill_placeholder(t.as_str(), "{title}", title)
}

/// What a category's chooser reports: that `{app}` is now the default, or,
/// counted by `failed`, how many types were refused.
pub open spec fn default_assigned_msg(failed: nat, refused: bool) -> (Seq<char>, Option<(Seq<char>, u32)>) {
    if refused {
        counted(
            "{failed} of the {title} types could not be set: {error}"@,
            "{failed} of the {title} types could not be set: {error}"@,
            failed,
        )
    } else {
        fixed("{app} is now the default for {title}"@)
    }
}

/// The message of what a category's chooser reports.
pub fn default_assigned_message(failed: usize, error: Option<&str>) -> (m: Message)
    ensures
        msg_view(m) == default_assigned_msg(failed as nat, error is Some),
{
    match error {
        None => Message { id: "{app} is now the default for {title}", plural: None },
        Some(_) => Message {
            id: "{failed} of the {title} types could not be set: {error}",
            plural: Some(("{failed} of the {title} types could not be set: {error}", plural_count(failed))),
        },
    }
}

/// What a category's chooser reports, from its translated template: `{app}`
/// and `{title}` filled in, or `{failed}`, `{title}` and `{error}`.
pub open spec fn default_assigned_fill(
    template: Seq<char>,
    app: Seq<char>,
    title: Seq<char>,
    failed: nat,
    error: Option<Seq<char>>,
) -> Seq<char> {
    match error {
        None => fill(fill(template, "{app}"@, app), "{title}"@, title),
        Some(e) => fill(
            fill(fill(template, "{failed}"@, decimal(failed)), "{title}"@, title),
            "{error}"@,
            e,
        ),
    }
}

/// What a category's chooser reports, given its translated template.
pub fn fill_default_assigned(
    template: &str,
    app: &str,
    title: &str,
    failed: usize,
    error: Option<&str>,
) -> (r: String)
    ensures
        r@ == default_assigned_fill(template@, app@, title@, failed as nat, opt_view(error)),
{
    proof {
        reveal_strlit("{app}");
        reveal_strlit("{title}");
        reveal_strlit("{failed}");
        reveal_strlit("{error}");
    }
    match error {
        None => {
            let a = replace_text(template, "{app}", app);
            replace_text(a.as_str(), "{title}", title)
        },
        Some(e) => {
            let f = replace_text(template, "{failed}", decimal_text(failed).as_str());
            let g = replace_text(f.as_str(), "{title}", title);
            replace_text(g.as_str(), "{error}", e)
        },
    }
}

/// What a category's chooser reports after assigning `app`: that it is now
/// the default, or how many types were refused and the first reason; the
/// template `tr` gives for its message, filled in.
pub fn default_assigned<T: Fn(&Message) -> String>(
    app: &str,
    title: &str,
    failed: usize,
    error: Option<&str>,
    tr: &T,
) -> (r: String)
    requires
        can_translate(*tr),
    ensures
        exists|t: Seq<char>|
            #[trigger] translated(*tr, default_assigned_msg(failed as nat, error is Some), t) && r@
                == default_assigned_fill(t, app@, title@, failed as nat, opt_view(error)),
{
    let m = default_assigned_message(failed, error);
    let t = text_of(tr, &m);
    fill_default_assigned(t.as_str(), app, title, failed, error)
}

/// What is shown where no application is set.
pub open spec fn not_set_msg() -> (Seq<char>, Option<(Seq<char>, u32)>) {
    fixed("Not set"@)
}

/// The message shown where no application is set.
pub fn not_set_message() -> (m: Message)
    ensures
        msg_view(m) == not_set_msg(),
{
    Message { id: "Not set", plural: None }
}

/// The subtitle of a Default Apps row: the application it reports, or the
/// text `tr` gives for "Not set".
pub fn default_subtitle<T: Fn(&Message) -> String>(app: Option<&str>, tr: &T) -> (r: String)
    requires
        can_translate(*tr),
    ensures
        match app {
            Some(name) => r@ == name@,
            None => translated(*tr, not_set_msg(), r@),
        },
{
    match app {
        Some(name) => String::from_str(name),
        None => {
            let m = not_set_message();
            text_of(tr, &m)
        },
    }
}

/// What the chooser of one type reports.
pub open spec fn chosen_default_msg(refused: bool) -> (Seq<char>, Option<(Seq<char>, u32)>) {
    if refused {
        fixed("Could not set default: {error}"@)
    } else {
        fixed("{app} now opens {mime}"@)
    }
}

/// The message of what the chooser of one type reports.
pub fn chosen_default_message(error: Option<&str>) -> (m: Message)
    ensures
        msg_view(m) == chosen_default_msg(error is Some),
{
    match error {
        None => Message { id: "{app} now opens {mime}", plural: None },
        Some(_) => Message { id: "Could not set default: {error}", plural: None },
    }
}

/// What the chooser of one type reports, from its translated template:
/// `{app}` and `{mime}` filled in, or `{error}`.
pub open spec fn chosen_default_fill(
    template: Seq<char>,
    app: Seq<char>,
    mime: Seq<char>,
    error: Option<Seq<char>>,
) -> Seq<char> {
    match error {
        None => fill(fill(template, "{app}"@, app), "{mime}"@, mime),
        Some(e) => fill(template, "{error}"@, e),
    }
}

/// What the chooser of one type reports, given its translated template.
pub fn fill_chosen_default(template: &str, app: &str, mime: &str, error: Option<&str>) -> (r: String)
    ensures
        r@ == chosen_default_fill(template@, app@, mime@, opt_view(error)),
{
    proof {
        reveal_strlit("{app}");
        reveal_strlit("{mime}");
        reveal_strlit("{error}");
    }
    match error {
        None => {
            let a = replace_text(template, "{app}", app);
            replace_text(a.as_str(), "{mime}", mime)
        },
        Some(e) => replace_text(template, "{error}", e),
    }
}

/// What the chooser of one type reports after trying to assign `app`: the
/// template `tr` gives for its message, filled in.
pub fn chosen_default<T: Fn(&Message) -> String>(
    app: &str,
    mime: &str,
    error: Option<&str>,
    tr: &T,
) -> (r: String)
    requires
        can_translate(*tr),
    ensures
        exists|t: Seq<char>|
            #[trigger] translated(*tr, chosen_default_msg(error is Some), t) && r@ == chosen_default_fill(
                t,
                app@,
                mime@,
                opt_view(error),
            ),
{
    let m = chosen_default_message(error);
    let t = text_of(tr, &m);
    fill_chosen_default(t.as_str(), app, mime, error)
}

/// The report after resetting one type.
pub open spec fn reset_done_msg() -> (Seq<char>, Option<(Seq<char>, u32)>) {
    fixed("Reset {mime} to the system default"@)
}

/// The message of the report after resetting one type.
pub fn reset_done_message() -> (m: Message)
    ensures
        msg_view(m) == reset_done_msg(),
{
    Message { id: "Reset {mime} to the system default", plural: None }
}

/// "Reset `mime` to the system default": the template `tr` gives, with
/// `{mime}` filled in.
pub fn reset_done<T: Fn(&Message) -> String>(mime: &str, tr: &T) -> (r: String)
    requires
        can_translate(*tr),
    ensures
        exists|t: Seq<char>|
            #[trigger] translated(*tr, reset_done_msg(), t) && r@ == fill(t, "{mime}"@, mime@),
{
    proof {
        reveal_strlit("{mime}");
    }
    let m = reset_done_message();
    let t = text_of(tr, &m);
    fill_placeholder(t.as_str(), "{mime}", mime)
}

/// The body of the chooser of a type nothing declares.
pub open spec fn no_candidates_msg() -> (Seq<char>, Option<(Seq<char>, u32)>) {
    fixed("{mime}\n\nNo installed application declares support for this type."@)
}

/// The message of the body of the chooser of a type nothing declares.
pub fn no_candidates_message() -> (m: Message)
    ensures
        msg_view(m) == no_candidates_msg(),
{
    Message { id: "{mime}\n\nNo installed application declares support for this type.", plural: None }
}

/// The body of the chooser of a type nothing declares: the template `tr`
/// gives, with `{mime}` filled in.
pub fn no_candidates_body<T: Fn(&Message) -> String>(mime: &str, tr: &T) -> (r: String)
    requires
        can_translate(*tr),
    ensures
        exists|t: Seq<char>|
            #[trigger] translated(*tr, no_candidates_msg(), t) && r@ == fill(t, "{mime}"@, mime@),
{
    proof {
        reveal_strlit("{mime}");
    }
    let m = no_candidates_message();
    let t = text_of(tr, &m);
    fill_placeholder(t.as_str(), "{mime}", mime)
}

/// "`group` (`count`)", the label of a section header.
pub fn header_label(group: &str, count: usize) -> (r: String)
    ensures
        r@ == group@ + " ("@ + decimal(count as nat) + ")"@,
{
    let mut r = String::from_str(group);
    r.append(" (");
    r.append(decimal_text(count).as_str());
    r.append(")");
    r
}

/// The text a screen reader says for a row of the list, from its translated
/// template: `{app}` first, where an application opens the type, then
/// `{description}` and `{mime}`.
pub open spec fn row_label_spec(
    template: Seq<char>,
    description: Seq<char>,
    mime: Seq<char>,
    app: Option<Seq<char>>,
) -> Seq<char> {
    let with_app = match app {
        Some(a) => fill(template, "{app}"@, a),
        None => template,
    };
    fill(fill(with_app, "{description}"@, description), "{mime}"@, mime)
}

/// The text a screen reader says for a row, given its template.
pub fn fill_row_label(template: &str, description: &str, mime: &str, app: Option<&str>) -> (r: String)
    ensures
        r@ == row_label_spec(template@, description@, mime@, opt_view(app)),
{
    proof {
        reveal_strlit("{app}");
        reveal_strlit("{description}");
        reveal_strlit("{mime}");
    }
    let with_app = match app {
        Some(a) => replace_text(template, "{app}", a),
        None => String::from_str(template),
    };
    let with_description = replace_text(with_app.as_str(), "{description}", description);
    replace_text(with_description.as_str(), "{mime}", mime)
}

/// A row's accessible label: the message that names the application that
/// opens the type, or the one that says there is none.
pub open spec fn row_label_msg(has_app: bool) -> (Seq<char>, Option<(Seq<char>, u32)>) {
    if has_app {
        fixed("{description}, {mime}, opens with {app}"@)
    } else {
        fixed("{description}, {mime}, no default application"@)
    }
}

/// The message of a row's accessible label.
pub fn row_label_message(app: Option<&str>) -> (m: Message)
    ensures
        msg_view(m) == row_label_msg(app is Some),
{
    match app {
        Some(_) => Message { id: "{description}, {mime}, opens with {app}", plural: None },
        None => Message { id: "{description}, {mime}, no default application", plural: None },
    }
}

/// What a screen reader says for a row of the list, e.g. "PNG image,
/// image/png, opens with Image Viewer": the template `tr` gives for its
/// message, filled in.
pub fn row_label<T: Fn(&Message) -> String>(
    description: &str,
    mime: &str,
    app: Option<&str>,
    tr: &T,
) -> (r: String)
    requires
        can_translate(*tr),
    ensures
        exists|t: Seq<char>|
            #[trigger] translated(*tr, row_label_msg(app is Some), t) && r@ == row_label_spec(
                t,
                description@,
                mime@,
                opt_view(app),
            ),
{
    let m = row_label_message(app);
    let t = text_of(tr, &m);
    fill_row_label(t.as_str(), description, mime, app)
}

/// The tooltip of a section header's bulk button, from its template.
pub open spec fn group_tooltip_spec(
    template: Seq<char>,
    app: Seq<char>,
    group: Seq<char>,
    count: nat,
) -> Seq<char> {
    fill(fill(fill(template, "{app}"@, app), "{count}"@, decimal(count)), "{group}"@, group)
}

/// The tooltip of a section header's bulk button, given its template.
pub fn fill_group_tooltip(template: &str, app: &str, group: &str, count: u32) -> (r: String)
    ensures
        r@ == group_tooltip_spec(template@, app@, group@, count as nat),
{
    proof {
        reveal_strlit("{app}");
        reveal_strlit("{count}");
        reveal_strlit("{group}");
    }
    let a = replace_text(template, "{app}", app);
    let c = replace_text(a.as_str(), "{count}", decimal_text(count as usize).as_str());
    replace_text(c.as_str(), "{group}", group)
}

/// The tooltip of a section header's bulk button, its form picked by `count`.
pub open spec fn group_tooltip_msg(count: u32) -> (Seq<char>, Option<(Seq<char>, u32)>) {
    (
        "Use {app} for the one {group} file type"@,
        Some(("Use {app} for all {count} {group} file types"@, count)),
    )
}

/// The message of the tooltip of a section header's bulk button.
pub fn group_tooltip_message(count: u32) -> (m: Message)
    ensures
        msg_view(m) == group_tooltip_msg(count),
{
    Message {
        id: "Use {app} for the one {group} file type",
        plural: Some(("Use {app} for all {count} {group} file types", count)),
    }
}

/// "Use `app` for all `count` `group` file types", in the plural form the
/// locale uses for `count`: the template `tr` gives, filled in.
pub fn group_tooltip<T: Fn(&Message) -> String>(app: &str, group: &str, count: u32, tr: &T) -> (r: String)
    requires
        can_translate(*tr),
    ensures
        exists|t: Seq<char>|
            #[trigger] translated(*tr, group_tooltip_msg(count), t) && r@ == group_tooltip_spec(
                t,
                app@,
                group@,
                count as nat,
            ),
{
    let m = group_tooltip_message(count);
    let t = text_of(tr, &m);
    fill_group_tooltip(t.as_str(), app, group, count)
}

/// The "Reset `mime` to the system default" of the list's reset button: the
/// same message as `reset_done`.
pub fn reset_type_toast<T: Fn(&Message) -> String>(mime: &str, tr: &T) -> (r: String)
    requires
        can_translate(*tr),
    ensures
        exists|t: Seq<char>|
            #[trigger] translated(*tr, reset_done_msg(), t) && r@ == fill(t, "{mime}"@, mime@),
{
    reset_done(mime, tr)
}

/// Where the Modified page says changes are saved.
pub open spec fn nothing_changed_msg() -> (Seq<char>, Option<(Seq<char>, u32)>) {
    fixed("File types you assign to an application appear here, saved in {path}."@)
}

/// The message of where the Modified page says changes are saved.
pub fn nothing_changed_message() -> (m: Message)
    ensures
        msg_view(m) == nothing_changed_msg(),
{
    Message { id: "File types you assign to an application appear here, saved in {path}.", plural: None }
}

/// Where the Modified page says changes are saved, for a file at `path`:
/// the template `tr` gives, with `{path}` filled in.
pub fn nothing_changed_description<T: Fn(&Message) -> String>(path: &str, tr: &T) -> (r: String)
    requires
        can_translate(*tr),
    ensures
        exists|t: Seq<char>|
            #[trigger] translated(*tr, nothing_changed_msg(), t) && r@ == fill(t, "{path}"@, path@),
{
    proof {
        reveal_strlit("{path}");
    }
    let m = nothing_changed_message();
    let t = text_of(tr, &m);
    fill_placeholder(t.as_str(), "{path}", path)
}

} // verus!
