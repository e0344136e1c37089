//! The form state machine for creating, updating and bulk-editing
//! issues: an ordered list of field definitions, the values they hold,
//! per-field search state for the searchable dropdowns, and the cursor.
//!
//! Values and search state live in association lists keyed by the field
//! key; a key occurs at most once because writes replace in place.

use vstd::prelude::*;
use vstd::string::*;

use crate::form_field::{
    copy_field_value, options_view, FieldOption, FieldOptionView, FieldType, FieldValue,
    FieldValueView, FormField, FormFieldView,
};
use crate::redmine::{IssueCategory, IssueCustomField, IssueStatus, Priority, Tracker, User};
use crate::sorting::{insert_sorted_by, lemma_insert_sorted_by_at, lemma_sort_by_asc_push, sort_by_asc};
use crate::text::{chars_lex_leq, dec_chars, lex_leq, u64_to_string};
use crate::text::{char_to_lower, contains_ci, chars_contain_ci, lower_char, lower_seq, str_chars, str_eq};

verus! {

// Association lists with text keys, first match winning.

/// The value stored under a key, if any.
pub open spec fn assoc_get<V>(s: Seq<(Seq<char>, V)>, k: Seq<char>) -> Option<V>
    decreases s.len(),
{
    if s.len() == 0 {
        None
    } else if s[0].0 == k {
        Some(s[0].1)
    } else {
        assoc_get(s.drop_first(), k)
    }
}

/// The list with `k` bound to `v`: the first binding of `k` replaced in
/// place, or a new binding appended.
pub open spec fn assoc_set<V>(s: Seq<(Seq<char>, V)>, k: Seq<char>, v: V) -> Seq<(Seq<char>, V)>
    decreases s.len(),
{
    if s.len() == 0 {
        seq![(k, v)]
    } else if s[0].0 == k {
        seq![(k, v)] + s.drop_first()
    } else {
        seq![s[0]] + assoc_set(s.drop_first(), k, v)
    }
}

/// The list with the first binding of `k` removed.
pub open spec fn assoc_remove<V>(s: Seq<(Seq<char>, V)>, k: Seq<char>) -> Seq<(Seq<char>, V)>
    decreases s.len(),
{
    if s.len() == 0 {
        Seq::empty()
    } else if s[0].0 == k {
        s.drop_first()
    } else {
        seq![s[0]] + assoc_remove(s.drop_first(), k)
    }
}

/// Where an exec scan stops is what [`assoc_set`] means: replace there,
/// or append when the key is absent.
pub proof fn lemma_assoc_set_at<V>(s: Seq<(Seq<char>, V)>, k: Seq<char>, v: V, i: int)
    requires
        0 <= i <= s.len(),
        forall|j: int| 0 <= j < i ==> (#[trigger] s[j]).0 != k,
        i < s.len() ==> s[i].0 == k,
    ensures
        assoc_set(s, k, v) == (if i < s.len() {
            s.take(i) + seq![(k, v)] + s.skip(i + 1)
        } else {
            s.push((k, v))
        }),
    decreases i,
{
    if s.len() == 0 {
        assert(assoc_set(s, k, v) =~= s.push((k, v)));
    } else if i == 0 {
        if i < s.len() {
            assert(s.take(0) + seq![(k, v)] + s.skip(1) =~= seq![(k, v)] + s.drop_first());
        }
    } else {
        let rest = s.drop_first();
        assert(s[0].0 != k);
        assert forall|j: int| 0 <= j < i - 1 implies (#[trigger] rest[j]).0 != k by {
            assert(rest[j] == s[j + 1]);
        }
        assert(i - 1 < rest.len() ==> rest[i - 1].0 == k) by {
            if i - 1 < rest.len() {
                assert(rest[i - 1] == s[i]);
            }
        }
        lemma_assoc_set_at(rest, k, v, i - 1);
        if i < s.len() {
            assert(seq![s[0]] + (rest.take(i - 1) + seq![(k, v)] + rest.skip(i)) =~= s.take(i)
                + seq![(k, v)] + s.skip(i + 1));
        } else {
            assert(seq![s[0]] + rest.push((k, v)) =~= s.push((k, v)));
        }
    }
}

/// Where an exec scan stops is what [`assoc_remove`] means.
pub proof fn lemma_assoc_remove_at<V>(s: Seq<(Seq<char>, V)>, k: Seq<char>, i: int)
    requires
        0 <= i <= s.len(),
        forall|j: int| 0 <= j < i ==> (#[trigger] s[j]).0 != k,
        i < s.len() ==> s[i].0 == k,
    ensures
        assoc_remove(s, k) == (if i < s.len() {
            s.take(i) + s.skip(i + 1)
        } else {
            s
        }),
    decreases i,
{
    if s.len() == 0 {
    } else if i == 0 {
        if i < s.len() {
            assert(s.take(0) + s.skip(1) =~= s.drop_first());
        }
    } else {
        let rest = s.drop_first();
        assert(s[0].0 != k);
        assert forall|j: int| 0 <= j < i - 1 implies (#[trigger] rest[j]).0 != k by {
            assert(rest[j] == s[j + 1]);
        }
        assert(i - 1 < rest.len() ==> rest[i - 1].0 == k) by {
            if i - 1 < rest.len() {
                assert(rest[i - 1] == s[i]);
            }
        }
        lemma_assoc_remove_at(rest, k, i - 1);
        if i < s.len() {
            assert(seq![s[0]] + (rest.take(i - 1) + rest.skip(i)) =~= s.take(i) + s.skip(i + 1));
        } else {
            assert(seq![s[0]] + rest =~= s);
        }
    }
}

/// View of a value binding list.
pub open spec fn values_view(s: Seq<(String, FieldValue)>) -> Seq<(Seq<char>, FieldValueView)> {
    s.map_values(|p: (String, FieldValue)| (p.0@, p.1@))
}

/// View of a text binding list.
pub open spec fn texts_view(s: Seq<(String, String)>) -> Seq<(Seq<char>, Seq<char>)> {
    s.map_values(|p: (String, String)| (p.0@, p.1@))
}

/// View of a flag binding list.
pub open spec fn modes_view(s: Seq<(String, bool)>) -> Seq<(Seq<char>, bool)> {
    s.map_values(|p: (String, bool)| (p.0@, p.1))
}

/// View of a field list.
pub open spec fn fields_view(s: Seq<FormField>) -> Seq<FormFieldView> {
    s.map_values(|f: FormField| f@)
}

/// The first field carrying this key.
pub open spec fn find_field(fields: Seq<FormFieldView>, key: Seq<char>) -> Option<FormFieldView>
    decreases fields.len(),
{
    if fields.len() == 0 {
        None
    } else if fields[0].key == key {
        Some(fields[0])
    } else {
        find_field(fields.drop_first(), key)
    }
}

/// An option whose name is exactly the search text, case-insensitively.
pub open spec fn option_exact_fn(search: Seq<char>) -> spec_fn(FieldOptionView) -> bool {
    |o: FieldOptionView| lower_seq(o.name) == lower_seq(search)
}

/// An option whose name holds the search text, case-insensitively.
pub open spec fn option_partial_fn(search: Seq<char>) -> spec_fn(FieldOptionView) -> bool {
    |o: FieldOptionView| contains_ci(o.name, search)
}

/// What the search narrows a dropdown to: everything for an empty
/// search; the exact matches when there are any; else the partial
/// matches.
pub open spec fn spec_filtered_options(
    options: Seq<FieldOptionView>,
    search: Seq<char>,
) -> Seq<FieldOptionView> {
    if search.len() == 0 {
        options
    } else if options.filter(option_exact_fn(search)).len() > 0 {
        options.filter(option_exact_fn(search))
    } else {
        options.filter(option_partial_fn(search))
    }
}

/// The first position of an option id in a narrowed list.
pub open spec fn index_of_option(opts: Seq<FieldOptionView>, id: u64) -> Option<int>
    decreases opts.len(),
{
    if opts.len() == 0 {
        None
    } else if opts[0].id == id {
        Some(0)
    } else {
        match index_of_option(opts.drop_first(), id) {
            Some(i) => Some(i + 1),
            None => None,
        }
    }
}

/// Where dropdown navigation starts: the current selection's position,
/// or the top.
pub open spec fn current_option_index(opts: Seq<FieldOptionView>, cur: Option<u64>) -> int {
    match cur {
        Some(id) => match index_of_option(opts, id) {
            Some(i) => i,
            None => 0,
        },
        None => 0,
    }
}

/// Where dropdown navigation lands: one step down with wrap-around, or
/// one step up with wrap-around.
pub open spec fn nav_index(len: int, cur: int, down: bool) -> int {
    if down {
        (cur + 1) % len
    } else if cur > 0 {
        cur - 1
    } else {
        len - 1
    }
}

/// A required field misses its value: no value, empty text, or an
/// empty dropdown selection.
pub open spec fn field_value_missing(
    values: Seq<(Seq<char>, FieldValueView)>,
    f: FormFieldView,
) -> bool {
    match assoc_get(values, f.key) {
        Some(FieldValueView::Text(s)) => s.len() == 0,
        Some(FieldValueView::OptionId(o)) => o is None,
        Some(_) => false,
        None => true,
    }
}

/// The state of one issue form.
pub struct IssueForm {
    /// The fields, in display order.
    pub fields: Vec<FormField>,
    /// The value each field currently holds, by field key.
    pub values: Vec<(String, FieldValue)>,
    /// Which field has the cursor.
    pub current_field_idx: usize,
    /// Search text per searchable dropdown, by field key.
    pub search_text: Vec<(String, String)>,
    /// Whether a field is in search mode, by field key.
    pub search_mode: Vec<(String, bool)>,
    /// First visible field, for scrollable forms.
    pub scroll_offset: usize,
}

impl IssueForm {
    /// The value stored for a key.
    pub open spec fn spec_value(&self, k: Seq<char>) -> Option<FieldValueView> {
        assoc_get(values_view(self.values@), k)
    }

    /// The search text stored for a key; absent reads as empty.
    pub open spec fn spec_search_text(&self, k: Seq<char>) -> Seq<char> {
        match assoc_get(texts_view(self.search_text@), k) {
            Some(t) => t,
            None => Seq::empty(),
        }
    }

    /// Whether a key is in search mode; absent reads as false.
    pub open spec fn spec_search_mode(&self, k: Seq<char>) -> bool {
        match assoc_get(modes_view(self.search_mode@), k) {
            Some(b) => b,
            None => false,
        }
    }

    /// An empty form.
    pub fn new() -> (r: IssueForm)
        ensures
            r.fields@.len() == 0,
            r.values@.len() == 0,
            r.current_field_idx == 0,
            r.search_text@.len() == 0,
            r.search_mode@.len() == 0,
            r.scroll_offset == 0,
    {
        IssueForm {
            fields: Vec::new(),
            values: Vec::new(),
            current_field_idx: 0,
            search_text: Vec::new(),
            search_mode: Vec::new(),
            scroll_offset: 0,
        }
    }

    /// The create-issue form: tracker, subject, description, status,
    /// priority, assignee, category when the project has any, dates,
    /// estimate, progress, and one text field per custom field.
    #[verifier::loop_isolation(false)]
    pub fn new_issue_form_with_custom_fields(
        trackers: &Vec<Tracker>,
        statuses: &Vec<IssueStatus>,
        priorities: &Vec<Priority>,
        users: &Vec<User>,
        categories: &Vec<IssueCategory>,
        custom_fields: &Vec<IssueCustomField>,
    ) -> (r: IssueForm)
        ensures
            fields_view(r.fields@) == spec_new_issue_form_fields(
                trackers@,
                statuses@,
                priorities@,
                users@,
                categories@,
                custom_fields@,
            ),
            values_view(r.values@) == values_after_fields(
                Seq::empty(),
                spec_new_issue_form_fields(
                    trackers@,
                    statuses@,
                    priorities@,
                    users@,
                    categories@,
                    custom_fields@,
                ),
            ),
            r.current_field_idx == 0,
            r.search_text@.len() == 0,
            r.search_mode@.len() == 0,
            r.scroll_offset == 0,
    {
        let mut form = IssueForm::new();
        let ghost mut fs: Seq<FormFieldView> = Seq::empty();
        proof {
            assert(values_view(form.values@) =~= values_after_fields(
                Seq::<(Seq<char>, FieldValueView)>::empty(),
                fs,
            ));
            assert(fields_view(form.fields@) =~= fs);
        }
        let t_opts = tracker_options_exec(trackers);
        let dt: Option<u64> = default_option_exec(&t_opts, "task");
        let fld = FormField::new_searchable_dropdown("tracker_id", "Tracker", t_opts, true)
            .with_default(FieldValue::OptionId(dt));
        let ghost fv = fld@;
        proof {
            assert(fv =~= searchable_field(
                "tracker_id"@,
                "Tracker"@,
                tracker_option_views(trackers@),
                true,
                default_option_id(tracker_option_views(trackers@), "task"@),
            ));
        }
        form.add_field(fld);
        proof {
            lemma_values_after_push(Seq::empty(), fs, fv);
            fs = fs.push(fv);
            assert(fields_view(form.fields@) == fs);
            assert(values_view(form.values@) == values_after_fields(Seq::empty(), fs));
        }
        let fld = FormField::new_text("subject", "Subject", true);
        let ghost fv = fld@;
        proof {
            assert(fv =~= text_field("subject"@, "Subject"@, true));
        }
        form.add_field(fld);
        proof {
            lemma_values_after_push(Seq::empty(), fs, fv);
            fs = fs.push(fv);
            assert(values_view(form.values@) == values_after_fields(Seq::empty(), fs));
        }
        let fld = FormField::new_textarea("description", "Description", false);
        let ghost fv = fld@;
        proof {
            assert(fv =~= textarea_field("description"@, "Description"@, false));
        }
        form.add_field(fld);
        proof {
            lemma_values_after_push(Seq::empty(), fs, fv);
            fs = fs.push(fv);
            assert(values_view(form.values@) == values_after_fields(Seq::empty(), fs));
        }
        let s_opts = status_options_exec(statuses);
        let ds: Option<u64> = default_option_exec(&s_opts, "new");
        let fld = FormField::new_searchable_dropdown("status_id", "Status", s_opts, true)
            .with_default(FieldValue::OptionId(ds));
        let ghost fv = fld@;
        proof {
            assert(fv =~= searchable_field(
                "status_id"@,
                "Status"@,
                status_option_views(statuses@),
                true,
                default_option_id(status_option_views(statuses@), "new"@),
            ));
        }
        form.add_field(fld);
        proof {
            lemma_values_after_push(Seq::empty(), fs, fv);
            fs = fs.push(fv);
            assert(values_view(form.values@) == values_after_fields(Seq::empty(), fs));
        }
        let p_opts = priority_options_exec(priorities);
        let dp: Option<u64> = default_option_exec(&p_opts, "normal");
        let fld = FormField::new_searchable_dropdown("priority_id", "Priority", p_opts, true)
            .with_default(FieldValue::OptionId(dp));
        let ghost fv = fld@;
        proof {
            assert(fv =~= searchable_field(
                "priority_id"@,
                "Priority"@,
                priority_option_views(priorities@),
                true,
                default_option_id(priority_option_views(priorities@), "normal"@),
            ));
        }
        form.add_field(fld);
        proof {
            lemma_values_after_push(Seq::empty(), fs, fv);
            fs = fs.push(fv);
            assert(values_view(form.values@) == values_after_fields(Seq::empty(), fs));
        }
        let u_opts = assignee_options_exec(users);
        let fld = FormField::new_searchable_dropdown("assigned_to_id", "Assignee", u_opts, false);
        let ghost fv = fld@;
        proof {
            assert(fv =~= searchable_field(
                "assigned_to_id"@,
                "Assignee"@,
                assignee_option_views(users@),
                false,
                None,
            ));
        }
        form.add_field(fld);
        proof {
            lemma_values_after_push(Seq::empty(), fs, fv);
            fs = fs.push(fv);
            assert(values_view(form.values@) == values_after_fields(Seq::empty(), fs));
        }
        if categories.len() > 0 {
            let c_opts = category_options_exec(categories);
            let fld = FormField::new_dropdown("category_id", "Category", c_opts, false);
            let ghost fv = fld@;
            proof {
                assert(fv =~= dropdown_field(
                    "category_id"@,
                    "Category"@,
                    category_option_views(categories@),
                    false,
                ));
            }
            form.add_field(fld);
            proof {
                lemma_values_after_push(Seq::empty(), fs, fv);
                fs = fs.push(fv);
                assert(values_view(form.values@) == values_after_fields(Seq::empty(), fs));
            }
        }
        let fld = FormField::new_date("start_date", "Start Date", false);
        let ghost fv = fld@;
        proof {
            assert(fv =~= date_field("start_date"@, "Start Date"@, false));
        }
        form.add_field(fld);
        proof {
            lemma_values_after_push(Seq::empty(), fs, fv);
            fs = fs.push(fv);
            assert(values_view(form.values@) == values_after_fields(Seq::empty(), fs));
        }
        let fld = FormField::new_date("due_date", "Due Date", false);
        let ghost fv = fld@;
        proof {
            assert(fv =~= date_field("due_date"@, "Due Date"@, false));
        }
        form.add_field(fld);
        proof {
            lemma_values_after_push(Seq::empty(), fs, fv);
            fs = fs.push(fv);
            assert(values_view(form.values@) == values_after_fields(Seq::empty(), fs));
        }
        let fld = FormField::new_float("estimated_hours", "Estimated Hours", false);
        let ghost fv = fld@;
        proof {
            assert(fv =~= float_field("estimated_hours"@, "Estimated Hours"@, false));
        }
        form.add_field(fld);
        proof {
            lemma_values_after_push(Seq::empty(), fs, fv);
            fs = fs.push(fv);
            assert(values_view(form.values@) == values_after_fields(Seq::empty(), fs));
        }
        let fld = FormField::new_progress("done_ratio", "% Done");
        let ghost fv = fld@;
        proof {
            assert(fv =~= progress_field("done_ratio"@, "% Done"@, Some(0u32)));
        }
        form.add_field(fld);
        proof {
            lemma_values_after_push(Seq::empty(), fs, fv);
            fs = fs.push(fv);
            assert(values_view(form.values@) == values_after_fields(Seq::empty(), fs));
        }
        let ghost base_fs = fs;
        let ghost tocf = (|c: IssueCustomField| text_field(custom_field_key(c.id), c.name@, false));
        let mut ci: usize = 0;
        proof {
            assert(custom_fields@.take(0).map_values(tocf) =~= Seq::<FormFieldView>::empty());
            assert(fs =~= base_fs + custom_fields@.take(0).map_values(tocf));
        }
        while ci < custom_fields.len()
            invariant
                ci <= custom_fields@.len(),
                fs == base_fs + custom_fields@.take(ci as int).map_values(tocf),
                fields_view(form.fields@) == fs,
                values_view(form.values@) == values_after_fields(Seq::empty(), fs),
                form.current_field_idx == 0,
                form.search_text@.len() == 0,
                form.search_mode@.len() == 0,
                form.scroll_offset == 0,
            decreases custom_fields@.len() - ci,
        {
            let key = String::from_str("custom_field_").concat(
                u64_to_string(custom_fields[ci].id).as_str(),
            );
            let fld = FormField::new_text(key.as_str(), custom_fields[ci].name.as_str(), false);
            let ghost fv = fld@;
            proof {
                assert(key@ == custom_field_key(custom_fields@[ci as int].id));
                assert(fv =~= tocf(custom_fields@[ci as int]));
            }
            form.add_field(fld);
            proof {
                lemma_values_after_push(Seq::empty(), fs, fv);
                fs = fs.push(fv);
                assert(custom_fields@.take(ci + 1).map_values(tocf) =~= custom_fields@.take(
                    ci as int,
                ).map_values(tocf).push(tocf(custom_fields@[ci as int])));
                assert(fs =~= base_fs + custom_fields@.take(ci + 1).map_values(tocf));
            }
            ci = ci + 1;
        }
        proof {
            assert(custom_fields@.take(custom_fields@.len() as int) =~= custom_fields@);
            assert(fs =~= spec_new_issue_form_fields(
                trackers@,
                statuses@,
                priorities@,
                users@,
                categories@,
                custom_fields@,
            ));
        }
        form
    }

    /// The create-issue form without custom fields.
    pub fn new_issue_form(
        trackers: &Vec<Tracker>,
        statuses: &Vec<IssueStatus>,
        priorities: &Vec<Priority>,
        users: &Vec<User>,
        categories: &Vec<IssueCategory>,
    ) -> (r: IssueForm)
        ensures
            fields_view(r.fields@) == spec_new_issue_form_fields(
                trackers@,
                statuses@,
                priorities@,
                users@,
                categories@,
                Seq::empty(),
            ),
            values_view(r.values@) == values_after_fields(
                Seq::empty(),
                spec_new_issue_form_fields(
                    trackers@,
                    statuses@,
                    priorities@,
                    users@,
                    categories@,
                    Seq::empty(),
                ),
            ),
            r.current_field_idx == 0,
            r.search_text@.len() == 0,
            r.search_mode@.len() == 0,
            r.scroll_offset == 0,
    {
        let none: Vec<IssueCustomField> = Vec::new();
        IssueForm::new_issue_form_with_custom_fields(
            trackers,
            statuses,
            priorities,
            users,
            categories,
            &none,
        )
    }

    /// The update/reply form: comment, status, assignee, progress,
    /// category when the project has any, due date, estimate, and the
    /// private-notes flag, seeded from the issue's current values.
    #[verifier::loop_isolation(false)]
    pub fn update_issue_form(
        statuses: &Vec<IssueStatus>,
        users: &Vec<User>,
        categories: &Vec<IssueCategory>,
        current_status_id: u64,
        current_assignee_id: Option<u64>,
        current_done_ratio: Option<u32>,
        current_category_id: Option<u64>,
    ) -> (r: IssueForm)
        ensures
            fields_view(r.fields@) == spec_update_issue_form_fields(
                statuses@,
                users@,
                categories@,
                current_status_id,
                current_assignee_id,
                current_done_ratio,
                current_category_id,
            ),
            values_view(r.values@) == values_after_fields(
                Seq::empty(),
                spec_update_issue_form_fields(
                    statuses@,
                    users@,
                    categories@,
                    current_status_id,
                    current_assignee_id,
                    current_done_ratio,
                    current_category_id,
                ),
            ),
            r.current_field_idx == 0,
            r.search_text@.len() == 0,
            r.search_mode@.len() == 0,
            r.scroll_offset == 0,
    {
        let mut form = IssueForm::new();
        let ghost mut fs: Seq<FormFieldView> = Seq::empty();
        proof {
            assert(values_view(form.values@) =~= values_after_fields(
                Seq::<(Seq<char>, FieldValueView)>::empty(),
                fs,
            ));
            assert(fields_view(form.fields@) =~= fs);
        }
        let fld = FormField::new_textarea("notes", "Notes (comment)", false);
        let ghost fv = fld@;
        proof {
            assert(fv =~= textarea_field("notes"@, "Notes (comment)"@, false));
        }
        form.add_field(fld);
        proof {
            lemma_values_after_push(Seq::empty(), fs, fv);
            fs = fs.push(fv);
            assert(values_view(form.values@) == values_after_fields(Seq::empty(), fs));
        }
        let s_opts = status_options_exec(statuses);
        let fld = FormField::new_searchable_dropdown("status_id", "Status", s_opts, false)
            .with_default(FieldValue::OptionId(Some(current_status_id)));
        let ghost fv = fld@;
        proof {
            assert(fv =~= searchable_field(
                "status_id"@,
                "Status"@,
                status_option_views(statuses@),
                false,
                Some(current_status_id),
            ));
        }
        form.add_field(fld);
        proof {
            lemma_values_after_push(Seq::empty(), fs, fv);
            fs = fs.push(fv);
            assert(values_view(form.values@) == values_after_fields(Seq::empty(), fs));
        }
        let u_opts = assignee_options_exec(users);
        let fld = FormField::new_searchable_dropdown("assigned_to_id", "Assignee", u_opts, false)
            .with_default(FieldValue::OptionId(current_assignee_id));
        let ghost fv = fld@;
        proof {
            assert(fv =~= searchable_field(
                "assigned_to_id"@,
                "Assignee"@,
                assignee_option_views(users@),
                false,
                current_assignee_id,
            ));
        }
        form.add_field(fld);
        proof {
            lemma_values_after_push(Seq::empty(), fs, fv);
            fs = fs.push(fv);
            assert(values_view(form.values@) == values_after_fields(Seq::empty(), fs));
        }
        let fld = FormField::new_progress("done_ratio", "% Done").with_default(
            FieldValue::Number(current_done_ratio),
        );
        let ghost fv = fld@;
        proof {
            assert(fv =~= progress_field("done_ratio"@, "% Done"@, current_done_ratio));
        }
        form.add_field(fld);
        proof {
            lemma_values_after_push(Seq::empty(), fs, fv);
            fs = fs.push(fv);
            assert(values_view(form.values@) == values_after_fields(Seq::empty(), fs));
        }
        if categories.len() > 0 {
            let c_opts = category_options_exec(categories);
            let fld = FormField::new_searchable_dropdown("category_id", "Category", c_opts, false)
                .with_default(FieldValue::OptionId(current_category_id));
            let ghost fv = fld@;
            proof {
                assert(fv =~= searchable_field(
                    "category_id"@,
                    "Category"@,
                    category_option_views(categories@),
                    false,
                    current_category_id,
                ));
            }
            form.add_field(fld);
            proof {
                lemma_values_after_push(Seq::empty(), fs, fv);
                fs = fs.push(fv);
                assert(values_view(form.values@) == values_after_fields(Seq::empty(), fs));
            }
        }
        let fld = FormField::new_date("due_date", "Due Date", false);
        let ghost fv = fld@;
        proof {
            assert(fv =~= date_field("due_date"@, "Due Date"@, false));
        }
        form.add_field(fld);
        proof {
            lemma_values_after_push(Seq::empty(), fs, fv);
            fs = fs.push(fv);
            assert(values_view(form.values@) == values_after_fields(Seq::empty(), fs));
        }
        let fld = FormField::new_float("estimated_hours", "Estimated Hours", false);
        let ghost fv = fld@;
        proof {
            assert(fv =~= float_field("estimated_hours"@, "Estimated Hours"@, false));
        }
        form.add_field(fld);
        proof {
            lemma_values_after_push(Seq::empty(), fs, fv);
            fs = fs.push(fv);
            assert(values_view(form.values@) == values_after_fields(Seq::empty(), fs));
        }
        let fld = FormField::new_checkbox("private_notes", "Private Notes");
        let ghost fv = fld@;
        proof {
            assert(fv =~= checkbox_field("private_notes"@, "Private Notes"@));
        }
        form.add_field(fld);
        proof {
            lemma_values_after_push(Seq::empty(), fs, fv);
            fs = fs.push(fv);
            assert(values_view(form.values@) == values_after_fields(Seq::empty(), fs));
            assert(fs =~= spec_update_issue_form_fields(
                statuses@,
                users@,
                categories@,
                current_status_id,
                current_assignee_id,
                current_done_ratio,
                current_category_id,
            ));
        }
        form
    }

    /// The bulk-edit form: status, priority and assignee, applied to
    /// every selected issue.
    pub fn bulk_edit_form(
        statuses: &Vec<IssueStatus>,
        priorities: &Vec<Priority>,
        users: &Vec<User>,
    ) -> (r: IssueForm)
        ensures
            fields_view(r.fields@) == spec_bulk_edit_form_fields(statuses@, priorities@, users@),
            values_view(r.values@) == values_after_fields(
                Seq::empty(),
                spec_bulk_edit_form_fields(statuses@, priorities@, users@),
            ),
            r.current_field_idx == 0,
            r.search_text@.len() == 0,
            r.search_mode@.len() == 0,
            r.scroll_offset == 0,
    {
        let mut form = IssueForm::new();
        let ghost mut fs: Seq<FormFieldView> = Seq::empty();
        proof {
            assert(values_view(form.values@) =~= values_after_fields(
                Seq::<(Seq<char>, FieldValueView)>::empty(),
                fs,
            ));
            assert(fields_view(form.fields@) =~= fs);
        }
        let s_opts = status_options_exec(statuses);
        let ds: Option<u64> = if statuses.len() > 0 {
            Some(statuses[0].id)
        } else {
            None
        };
        let fld = FormField::new_searchable_dropdown("status_id", "Status", s_opts, false)
            .with_default(FieldValue::OptionId(ds));
        let ghost fv = fld@;
        proof {
            assert(fv =~= searchable_field(
                "status_id"@,
                "Status"@,
                status_option_views(statuses@),
                false,
                if statuses@.len() > 0 {
                    Some(statuses@[0].id)
                } else {
                    None
                },
            ));
        }
        form.add_field(fld);
        proof {
            lemma_values_after_push(Seq::empty(), fs, fv);
            fs = fs.push(fv);
            assert(values_view(form.values@) == values_after_fields(Seq::empty(), fs));
        }
        let p_opts = priority_options_exec(priorities);
        let dp: Option<u64> = if priorities.len() > 0 {
            Some(priorities[0].id)
        } else {
            None
        };
        let fld = FormField::new_searchable_dropdown("priority_id", "Priority", p_opts, false)
            .with_default(FieldValue::OptionId(dp));
        let ghost fv = fld@;
        proof {
            assert(fv =~= searchable_field(
                "priority_id"@,
                "Priority"@,
                priority_option_views(priorities@),
                false,
                if priorities@.len() > 0 {
                    Some(priorities@[0].id)
                } else {
                    None
                },
            ));
        }
        form.add_field(fld);
        proof {
            lemma_values_after_push(Seq::empty(), fs, fv);
            fs = fs.push(fv);
            assert(values_view(form.values@) == values_after_fields(Seq::empty(), fs));
        }
        let u_opts = assignee_options_exec(users);
        let fld = FormField::new_searchable_dropdown("assigned_to_id", "Assignee", u_opts, false)
            .with_default(FieldValue::OptionId(Some(0)));
        let ghost fv = fld@;
        proof {
            assert(fv =~= searchable_field(
                "assigned_to_id"@,
                "Assignee"@,
                assignee_option_views(users@),
                false,
                Some(0u64),
            ));
        }
        form.add_field(fld);
        proof {
            lemma_values_after_push(Seq::empty(), fs, fv);
            fs = fs.push(fv);
            assert(values_view(form.values@) == values_after_fields(Seq::empty(), fs));
            assert(fs =~= spec_bulk_edit_form_fields(statuses@, priorities@, users@));
        }
        form
    }

    /// Append a field; its default value, if any, is written under its
    /// key.
    pub fn add_field(&mut self, field: FormField)
        ensures
            fields_view(final(self).fields@) == fields_view(old(self).fields@).push(field@),
            values_view(final(self).values@) == (match field@.default_value {
                Some(d) => assoc_set(values_view(old(self).values@), field@.key, d),
                None => values_view(old(self).values@),
            }),
            final(self).current_field_idx == old(self).current_field_idx,
            final(self).search_text == old(self).search_text,
            final(self).search_mode == old(self).search_mode,
            final(self).scroll_offset == old(self).scroll_offset,
    {
        match &field.default_value {
            Some(dv) => {
                let v = copy_field_value(dv);
                let k = field.key.clone();
                self.set_value(k, v);
            },
            None => {},
        }
        let ghost fv = field@;
        self.fields.push(field);
        proof {
            assert(fields_view(self.fields@) =~= fields_view(old(self).fields@).push(fv));
        }
    }

    /// The field under the cursor, if the cursor is in range.
    pub fn get_current_field(&self) -> (r: Option<&FormField>)
        ensures
            match r {
                Some(f) => self.current_field_idx < self.fields@.len() && f@ == fields_view(
                    self.fields@,
                )[self.current_field_idx as int],
                None => self.current_field_idx >= self.fields@.len(),
            },
    {
        if self.current_field_idx < self.fields.len() {
            proof {
                assert(self.fields@[self.current_field_idx as int]@ == fields_view(
                    self.fields@,
                )[self.current_field_idx as int]);
            }
            Some(&self.fields[self.current_field_idx])
        } else {
            None
        }
    }

    /// Move the cursor to the next field, wrapping to the top.
    pub fn next_field(&mut self)
        ensures
            final(self).current_field_idx == (if old(self).current_field_idx + 1
                < old(self).fields@.len() {
                old(self).current_field_idx + 1
            } else {
                0
            }),
            final(self).fields == old(self).fields,
            final(self).values == old(self).values,
            final(self).search_text == old(self).search_text,
            final(self).search_mode == old(self).search_mode,
            final(self).scroll_offset == old(self).scroll_offset,
    {
        let n: usize = self.fields.len();
        if n > 0 && self.current_field_idx < n - 1 {
            self.current_field_idx = self.current_field_idx + 1;
        } else {
            self.current_field_idx = 0;
        }
    }

    /// Move the cursor to the previous field, wrapping to the bottom.
    pub fn prev_field(&mut self)
        ensures
            final(self).current_field_idx == (if old(self).current_field_idx > 0 {
                old(self).current_field_idx - 1
            } else if old(self).fields@.len() == 0 {
                0
            } else {
                old(self).fields@.len() - 1
            }),
            final(self).fields == old(self).fields,
            final(self).values == old(self).values,
            final(self).search_text == old(self).search_text,
            final(self).search_mode == old(self).search_mode,
            final(self).scroll_offset == old(self).scroll_offset,
    {
        if self.current_field_idx > 0 {
            self.current_field_idx = self.current_field_idx - 1;
        } else {
            let n: usize = self.fields.len();
            self.current_field_idx = if n == 0 {
                0
            } else {
                n - 1
            };
        }
    }

    /// Scroll so the cursor's field is visible among `visible_fields`
    /// rows; a zero window leaves the scroll alone.
    pub fn update_scroll(&mut self, visible_fields: usize)
        ensures
            final(self).scroll_offset == (if visible_fields == 0 {
                old(self).scroll_offset as int
            } else if old(self).current_field_idx < old(self).scroll_offset {
                old(self).current_field_idx as int
            } else if old(self).current_field_idx >= old(self).scroll_offset + visible_fields {
                old(self).current_field_idx - (visible_fields - 1)
            } else {
                old(self).scroll_offset as int
            }),
            final(self).fields == old(self).fields,
            final(self).values == old(self).values,
            final(self).current_field_idx == old(self).current_field_idx,
            final(self).search_text == old(self).search_text,
            final(self).search_mode == old(self).search_mode,
    {
        if visible_fields == 0 {
            return;
        }
        if self.current_field_idx < self.scroll_offset {
            self.scroll_offset = self.current_field_idx;
        } else if self.current_field_idx >= self.scroll_offset && self.current_field_idx
            - self.scroll_offset >= visible_fields {
            self.scroll_offset = self.current_field_idx - (visible_fields - 1);
        }
    }

    /// The value stored for this key, if any.
    #[verifier::loop_isolation(false)]
    pub fn get_value(&self, key: &str) -> (r: Option<&FieldValue>)
        ensures
            match r {
                Some(v) => self.spec_value(key@) == Some(v@),
                None => self.spec_value(key@) is None,
            },
    {
        let ghost vv = values_view(self.values@);
        let mut i: usize = 0;
        proof {
            assert(vv.skip(0) =~= vv);
        }
        while i < self.values.len()
            invariant
                i <= vv.len(),
                vv.len() == self.values@.len(),
                assoc_get(vv, key@) == assoc_get(vv.skip(i as int), key@),
            decreases vv.len() - i,
        {
            proof {
                assert(self.values@[i as int].0@ == vv[i as int].0);
                assert(vv.skip(i as int)[0] == vv[i as int]);
                assert(vv.skip(i as int).drop_first() =~= vv.skip(i + 1));
            }
            if str_eq(self.values[i].0.as_str(), key) {
                proof {
                    assert(self.values@[i as int].1@ == vv[i as int].1);
                }
                return Some(&self.values[i].1);
            }
            i = i + 1;
        }
        proof {
            assert(vv.skip(vv.len() as int).len() == 0);
        }
        None
    }

    /// Bind this key to this value, replacing any existing binding.
    #[verifier::loop_isolation(false)]
    pub fn set_value(&mut self, key: String, value: FieldValue)
        ensures
            values_view(final(self).values@) == assoc_set(
                values_view(old(self).values@),
                key@,
                value@,
            ),
            final(self).fields == old(self).fields,
            final(self).current_field_idx == old(self).current_field_idx,
            final(self).search_text == old(self).search_text,
            final(self).search_mode == old(self).search_mode,
            final(self).scroll_offset == old(self).scroll_offset,
    {
        let ghost vv = values_view(old(self).values@);
        let ghost kv = key@;
        let ghost val = value@;
        let mut i: usize = 0;
        while i < self.values.len()
            invariant
                self.values == old(self).values,
                self.fields == old(self).fields,
                self.current_field_idx == old(self).current_field_idx,
                self.search_text == old(self).search_text,
                self.search_mode == old(self).search_mode,
                self.scroll_offset == old(self).scroll_offset,
                i <= vv.len(),
                vv.len() == self.values@.len(),
                forall|j: int| 0 <= j < i ==> (#[trigger] vv[j]).0 != kv,
            decreases vv.len() - i,
        {
            proof {
                assert(self.values@[i as int].0@ == vv[i as int].0);
            }
            if str_eq(self.values[i].0.as_str(), key.as_str()) {
                proof {
                    lemma_assoc_set_at(vv, kv, val, i as int);
                }
                let _old = self.values.remove(i);
                self.values.insert(i, (key, value));
                proof {
                    assert(values_view(self.values@) =~= vv.take(i as int) + seq![(kv, val)]
                        + vv.skip(i + 1));
                }
                return;
            }
            i = i + 1;
        }
        proof {
            lemma_assoc_set_at(vv, kv, val, vv.len() as int);
        }
        self.values.push((key, value));
        proof {
            assert(values_view(self.values@) =~= vv.push((kv, val)));
        }
    }

    /// The search text stored for this key; absent reads as empty.
    #[verifier::loop_isolation(false)]
    pub fn get_search_text(&self, key: &str) -> (r: String)
        ensures
            r@ == self.spec_search_text(key@),
    {
        let ghost tv = texts_view(self.search_text@);
        let mut i: usize = 0;
        proof {
            assert(tv.skip(0) =~= tv);
        }
        while i < self.search_text.len()
            invariant
                i <= tv.len(),
                tv.len() == self.search_text@.len(),
                assoc_get(tv, key@) == assoc_get(tv.skip(i as int), key@),
            decreases tv.len() - i,
        {
            proof {
                assert(self.search_text@[i as int].0@ == tv[i as int].0);
                assert(self.search_text@[i as int].1@ == tv[i as int].1);
                assert(tv.skip(i as int)[0] == tv[i as int]);
                assert(tv.skip(i as int).drop_first() =~= tv.skip(i + 1));
            }
            if str_eq(self.search_text[i].0.as_str(), key) {
                return self.search_text[i].1.clone();
            }
            i = i + 1;
        }
        proof {
            assert(tv.skip(tv.len() as int).len() == 0);
        }
        String::new()
    }

    /// Bind this key's search text.
    #[verifier::loop_isolation(false)]
    pub fn set_search_text(&mut self, key: String, text: String)
        ensures
            texts_view(final(self).search_text@) == assoc_set(
                texts_view(old(self).search_text@),
                key@,
                text@,
            ),
            final(self).fields == old(self).fields,
            final(self).values == old(self).values,
            final(self).current_field_idx == old(self).current_field_idx,
            final(self).search_mode == old(self).search_mode,
            final(self).scroll_offset == old(self).scroll_offset,
    {
        let ghost tv = texts_view(old(self).search_text@);
        let ghost kv = key@;
        let ghost val = text@;
        let mut i: usize = 0;
        while i < self.search_text.len()
            invariant
                self.search_text == old(self).search_text,
                self.fields == old(self).fields,
                self.values == old(self).values,
                self.current_field_idx == old(self).current_field_idx,
                self.search_mode == old(self).search_mode,
                self.scroll_offset == old(self).scroll_offset,
                i <= tv.len(),
                tv.len() == self.search_text@.len(),
                forall|j: int| 0 <= j < i ==> (#[trigger] tv[j]).0 != kv,
            decreases tv.len() - i,
        {
            proof {
                assert(self.search_text@[i as int].0@ == tv[i as int].0);
            }
            if str_eq(self.search_text[i].0.as_str(), key.as_str()) {
                proof {
                    lemma_assoc_set_at(tv, kv, val, i as int);
                }
                let _old = self.search_text.remove(i);
                self.search_text.insert(i, (key, text));
                proof {
                    assert(texts_view(self.search_text@) =~= tv.take(i as int) + seq![
                        (kv, val),
                    ] + tv.skip(i + 1));
                }
                return;
            }
            i = i + 1;
        }
        proof {
            lemma_assoc_set_at(tv, kv, val, tv.len() as int);
        }
        self.search_text.push((key, text));
        proof {
            assert(texts_view(self.search_text@) =~= tv.push((kv, val)));
        }
    }

    /// Whether this key is in search mode; absent reads as false.
    #[verifier::loop_isolation(false)]
    pub fn is_search_mode(&self, key: &str) -> (r: bool)
        ensures
            r == self.spec_search_mode(key@),
    {
        let ghost mv = modes_view(self.search_mode@);
        let mut i: usize = 0;
        proof {
            assert(mv.skip(0) =~= mv);
        }
        while i < self.search_mode.len()
            invariant
                i <= mv.len(),
                mv.len() == self.search_mode@.len(),
                assoc_get(mv, key@) == assoc_get(mv.skip(i as int), key@),
            decreases mv.len() - i,
        {
            proof {
                assert(self.search_mode@[i as int].0@ == mv[i as int].0);
                assert(self.search_mode@[i as int].1 == mv[i as int].1);
                assert(mv.skip(i as int)[0] == mv[i as int]);
                assert(mv.skip(i as int).drop_first() =~= mv.skip(i + 1));
            }
            if str_eq(self.search_mode[i].0.as_str(), key) {
                return self.search_mode[i].1;
            }
            i = i + 1;
        }
        proof {
            assert(mv.skip(mv.len() as int).len() == 0);
        }
        false
    }

    /// Bind this key's search mode.
    #[verifier::loop_isolation(false)]
    pub fn set_search_mode(&mut self, key: String, mode: bool)
        ensures
            modes_view(final(self).search_mode@) == assoc_set(
                modes_view(old(self).search_mode@),
                key@,
                mode,
            ),
            final(self).fields == old(self).fields,
            final(self).values == old(self).values,
            final(self).current_field_idx == old(self).current_field_idx,
            final(self).search_text == old(self).search_text,
            final(self).scroll_offset == old(self).scroll_offset,
    {
        let ghost mv = modes_view(old(self).search_mode@);
        let ghost kv = key@;
        let mut i: usize = 0;
        while i < self.search_mode.len()
            invariant
                self.search_mode == old(self).search_mode,
                self.fields == old(self).fields,
                self.values == old(self).values,
                self.current_field_idx == old(self).current_field_idx,
                self.search_text == old(self).search_text,
                self.scroll_offset == old(self).scroll_offset,
                i <= mv.len(),
                mv.len() == self.search_mode@.len(),
                forall|j: int| 0 <= j < i ==> (#[trigger] mv[j]).0 != kv,
            decreases mv.len() - i,
        {
            proof {
                assert(self.search_mode@[i as int].0@ == mv[i as int].0);
            }
            if str_eq(self.search_mode[i].0.as_str(), key.as_str()) {
                proof {
                    lemma_assoc_set_at(mv, kv, mode, i as int);
                }
                let _old = self.search_mode.remove(i);
                self.search_mode.insert(i, (key, mode));
                proof {
                    assert(modes_view(self.search_mode@) =~= mv.take(i as int) + seq![
                        (kv, mode),
                    ] + mv.skip(i + 1));
                }
                return;
            }
            i = i + 1;
        }
        proof {
            lemma_assoc_set_at(mv, kv, mode, mv.len() as int);
        }
        self.search_mode.push((key, mode));
        proof {
            assert(modes_view(self.search_mode@) =~= mv.push((kv, mode)));
        }
    }

    /// Drop this key's search text and search mode.
    #[verifier::loop_isolation(false)]
    pub fn clear_search(&mut self, key: &str)
        ensures
            texts_view(final(self).search_text@) == assoc_remove(
                texts_view(old(self).search_text@),
                key@,
            ),
            modes_view(final(self).search_mode@) == assoc_remove(
                modes_view(old(self).search_mode@),
                key@,
            ),
            final(self).fields == old(self).fields,
            final(self).values == old(self).values,
            final(self).current_field_idx == old(self).current_field_idx,
            final(self).scroll_offset == old(self).scroll_offset,
    {
        let ghost tv = texts_view(old(self).search_text@);
        let mut i: usize = 0;
        let mut removed_text: bool = false;
        while i < self.search_text.len()
            invariant
                !removed_text,
                self.search_text == old(self).search_text,
                self.search_mode == old(self).search_mode,
                self.fields == old(self).fields,
                self.values == old(self).values,
                self.current_field_idx == old(self).current_field_idx,
                self.scroll_offset == old(self).scroll_offset,
                i <= tv.len(),
                tv.len() == self.search_text@.len(),
                forall|j: int| 0 <= j < i ==> (#[trigger] tv[j]).0 != key@,
            decreases tv.len() - i,
        {
            proof {
                assert(self.search_text@[i as int].0@ == tv[i as int].0);
            }
            if str_eq(self.search_text[i].0.as_str(), key) {
                proof {
                    lemma_assoc_remove_at(tv, key@, i as int);
                }
                let _old = self.search_text.remove(i);
                proof {
                    assert(texts_view(self.search_text@) =~= tv.take(i as int) + tv.skip(
                        i + 1,
                    ));
                }
                removed_text = true;
                break;
            }
            i = i + 1;
        }
        if !removed_text {
            proof {
                lemma_assoc_remove_at(tv, key@, tv.len() as int);
                assert(texts_view(self.search_text@) == tv);
            }
        }
        let ghost mv = modes_view(old(self).search_mode@);
        let mut j: usize = 0;
        let mut removed_mode: bool = false;
        while j < self.search_mode.len()
            invariant
                !removed_mode,
                self.search_mode == old(self).search_mode,
                texts_view(self.search_text@) == assoc_remove(tv, key@),
                self.fields == old(self).fields,
                self.values == old(self).values,
                self.current_field_idx == old(self).current_field_idx,
                self.scroll_offset == old(self).scroll_offset,
                j <= mv.len(),
                mv.len() == self.search_mode@.len(),
                forall|t: int| 0 <= t < j ==> (#[trigger] mv[t]).0 != key@,
            decreases mv.len() - j,
        {
            proof {
                assert(self.search_mode@[j as int].0@ == mv[j as int].0);
            }
            if str_eq(self.search_mode[j].0.as_str(), key) {
                proof {
                    lemma_assoc_remove_at(mv, key@, j as int);
                }
                let _old = self.search_mode.remove(j);
                proof {
                    assert(modes_view(self.search_mode@) =~= mv.take(j as int) + mv.skip(
                        j + 1,
                    ));
                }
                removed_mode = true;
                break;
            }
            j = j + 1;
        }
        if !removed_mode {
            proof {
                lemma_assoc_remove_at(mv, key@, mv.len() as int);
                assert(modes_view(self.search_mode@) == mv);
            }
        }
    }

    /// Check the required fields: the first required field whose value
    /// is missing names itself in the error.
    #[verifier::loop_isolation(false)]
    pub fn validate(&self) -> (r: Result<(), String>)
        ensures
            match r {
                Ok(()) => forall|i: int|
                    0 <= i < self.fields@.len() ==> !((#[trigger] fields_view(self.fields@)[i]).required
                        && field_value_missing(
                        values_view(self.values@),
                        fields_view(self.fields@)[i],
                    )),
                Err(msg) => exists|i: int|
                    0 <= i < self.fields@.len() && (#[trigger] fields_view(
                        self.fields@,
                    )[i]).required && field_value_missing(
                        values_view(self.values@),
                        fields_view(self.fields@)[i],
                    ) && msg@ == fields_view(self.fields@)[i].label + " is required"@,
            },
    {
        let ghost fv = fields_view(self.fields@);
        let ghost vv = values_view(self.values@);
        let mut i: usize = 0;
        while i < self.fields.len()
            invariant
                i <= fv.len(),
                fv.len() == self.fields@.len(),
                forall|j: int| 0 <= j < i ==> !((#[trigger] fv[j]).required
                    && field_value_missing(vv, fv[j])),
            decreases fv.len() - i,
        {
            proof {
                assert(self.fields@[i as int]@ == fv[i as int]);
            }
            if self.fields[i].required {
                let missing: bool = match self.get_value(self.fields[i].key.as_str()) {
                    Some(v) => match v {
                        FieldValue::Text(s) => s.as_str().unicode_len() == 0,
                        FieldValue::OptionId(o) => o.is_none(),
                        _ => false,
                    },
                    None => true,
                };
                if missing {
                    let msg = self.fields[i].label.clone().concat(" is required");
                    proof {
                        assert(fv[i as int].required && field_value_missing(vv, fv[i as int]));
                        assert(msg@ == fv[i as int].label + " is required"@);
                    }
                    return Err(msg);
                }
            }
            i = i + 1;
        }
        Ok(())
    }

    /// The options the search narrows this field's dropdown to:
    /// everything for an empty search, the exact matches when there are
    /// any, else the partial matches. An unknown key has no options.
    #[verifier::loop_isolation(false)]
    pub fn get_filtered_options(&self, field_key: &str) -> (r: Vec<FieldOption>)
        ensures
            match find_field(fields_view(self.fields@), field_key@) {
                Some(f) => options_view(r@) == spec_filtered_options(
                    f.options,
                    self.spec_search_text(field_key@),
                ),
                None => r@.len() == 0,
            },
    {
        let ghost fv = fields_view(self.fields@);
        let mut fidx: usize = 0;
        let mut found: bool = false;
        proof {
            assert(fv.skip(0) =~= fv);
        }
        while fidx < self.fields.len()
            invariant
                !found,
                fidx <= fv.len(),
                fv.len() == self.fields@.len(),
                find_field(fv, field_key@) == find_field(fv.skip(fidx as int), field_key@),
            decreases fv.len() - fidx,
        {
            proof {
                assert(self.fields@[fidx as int]@ == fv[fidx as int]);
                assert(fv.skip(fidx as int)[0] == fv[fidx as int]);
                assert(fv.skip(fidx as int).drop_first() =~= fv.skip(fidx + 1));
            }
            if str_eq(self.fields[fidx].key.as_str(), field_key) {
                found = true;
                break;
            }
            fidx = fidx + 1;
        }
        if !found {
            proof {
                assert(fv.skip(fv.len() as int).len() == 0);
            }
            return Vec::new();
        }
        proof {
            assert(find_field(fv, field_key@) == Some(fv[fidx as int]));
        }
        let ghost f = fv[fidx as int];
        let search: String = self.get_search_text(field_key);
        let ghost sv = self.spec_search_text(field_key@);
        let search_chars = str_chars(search.as_str());
        if search_chars.len() == 0 {
            let mut all: Vec<FieldOption> = Vec::new();
            let mut k: usize = 0;
            proof {
                assert(options_view(all@) =~= f.options.take(0));
            }
            while k < self.fields[fidx].options.len()
                invariant
                    fidx < self.fields@.len(),
                    self.fields@[fidx as int]@ == f,
                    k <= f.options.len(),
                    f.options.len() == self.fields@[fidx as int].options@.len(),
                    options_view(all@) == f.options.take(k as int),
                decreases f.options.len() - k,
            {
                proof {
                    assert(self.fields@[fidx as int].options@[k as int]@
                        == f.options[k as int]);
                }
                all.push(copy_field_option(&self.fields[fidx].options[k]));
                proof {
                    assert(options_view(all@) =~= f.options.take(k + 1));
                }
                k = k + 1;
            }
            proof {
                assert(f.options.take(f.options.len() as int) =~= f.options);
            }
            return all;
        }
        let mut exact: Vec<FieldOption> = Vec::new();
        let ghost epred = option_exact_fn(sv);
        let mut k: usize = 0;
        proof {
            assert(f.options.take(0) =~= Seq::<FieldOptionView>::empty());
            reveal(Seq::filter);
        }
        while k < self.fields[fidx].options.len()
            invariant
                fidx < self.fields@.len(),
                self.fields@[fidx as int]@ == f,
                k <= f.options.len(),
                f.options.len() == self.fields@[fidx as int].options@.len(),
                options_view(exact@) == f.options.take(k as int).filter(epred),
            decreases f.options.len() - k,
        {
            proof {
                crate::db::lemma_filter_take_step(f.options, epred, k as int);
                assert(self.fields@[fidx as int].options@[k as int]@ == f.options[k as int]);
            }
            let name_low = lower_chars(&str_chars(self.fields[fidx].options[k].name.as_str()));
            let search_low = lower_chars(&search_chars);
            if chars_eq(&name_low, &search_low) {
                exact.push(copy_field_option(&self.fields[fidx].options[k]));
                proof {
                    assert(options_view(exact@) =~= f.options.take(k as int).filter(
                        epred,
                    ).push(f.options[k as int]));
                }
            }
            k = k + 1;
        }
        proof {
            assert(f.options.take(f.options.len() as int) =~= f.options);
        }
        if exact.len() > 0 {
            return exact;
        }
        let mut partial: Vec<FieldOption> = Vec::new();
        let ghost ppred = option_partial_fn(sv);
        let mut k2: usize = 0;
        proof {
            assert(f.options.take(0) =~= Seq::<FieldOptionView>::empty());
        }
        while k2 < self.fields[fidx].options.len()
            invariant
                fidx < self.fields@.len(),
                self.fields@[fidx as int]@ == f,
                k2 <= f.options.len(),
                f.options.len() == self.fields@[fidx as int].options@.len(),
                options_view(partial@) == f.options.take(k2 as int).filter(ppred),
            decreases f.options.len() - k2,
        {
            proof {
                crate::db::lemma_filter_take_step(f.options, ppred, k2 as int);
                assert(self.fields@[fidx as int].options@[k2 as int]@ == f.options[k2 as int]);
            }
            let name_chars = str_chars(self.fields[fidx].options[k2].name.as_str());
            if chars_contain_ci(&name_chars, &search_chars) {
                partial.push(copy_field_option(&self.fields[fidx].options[k2]));
                proof {
                    assert(options_view(partial@) =~= f.options.take(k2 as int).filter(
                        ppred,
                    ).push(f.options[k2 as int]));
                }
            }
            k2 = k2 + 1;
        }
        proof {
            assert(f.options.take(f.options.len() as int) =~= f.options);
        }
        partial
    }
}

/// The narrowed options a form offers under a key: nothing for an
/// unknown key.
pub open spec fn spec_filtered_of(form: IssueForm, key: Seq<char>) -> Seq<FieldOptionView> {
    match find_field(fields_view(form.fields@), key) {
        Some(f) => spec_filtered_options(f.options, form.spec_search_text(key)),
        None => Seq::empty(),
    }
}

/// The current dropdown selection a form holds under a key.
pub open spec fn spec_selected_id(form: IssueForm, key: Seq<char>) -> Option<u64> {
    match assoc_get(values_view(form.values@), key) {
        Some(FieldValueView::OptionId(i)) => i,
        _ => None,
    }
}

/// The name of the first narrowed option carrying this id.
pub open spec fn find_option_name(opts: Seq<FieldOptionView>, id: u64) -> Option<Seq<char>>
    decreases opts.len(),
{
    if opts.len() == 0 {
        None
    } else if opts[0].id == id {
        Some(opts[0].name)
    } else {
        find_option_name(opts.drop_first(), id)
    }
}

/// Step a searchable dropdown's selection one entry down or up through
/// its narrowed options, wrapping around; with no narrowed options the
/// form is untouched.
#[verifier::loop_isolation(false)]
pub fn navigate_dropdown(form: &mut IssueForm, field_key: &str, direction: i32)
    ensures
        ({
            let opts = spec_filtered_of(*old(form), field_key@);
            let cidx = current_option_index(opts, spec_selected_id(*old(form), field_key@));
            if opts.len() > 0 {
                &&& values_view(final(form).values@) == assoc_set(
                    values_view(old(form).values@),
                    field_key@,
                    FieldValueView::OptionId(
                        Some(opts[nav_index(opts.len() as int, cidx, direction > 0)].id),
                    ),
                )
                &&& final(form).fields == old(form).fields
                &&& final(form).current_field_idx == old(form).current_field_idx
                &&& final(form).search_text == old(form).search_text
                &&& final(form).search_mode == old(form).search_mode
                &&& final(form).scroll_offset == old(form).scroll_offset
            } else {
                *final(form) == *old(form)
            }
        }),
{
    let opts = form.get_filtered_options(field_key);
    let ghost ov = spec_filtered_of(*form, field_key@);
    proof {
        assert(options_view(opts@) == ov);
    }
    if opts.len() == 0 {
        return;
    }
    let cur: Option<u64> = match form.get_value(field_key) {
        Some(v) => v.as_option_id(),
        None => None,
    };
    proof {
        assert(cur == spec_selected_id(*form, field_key@));
    }
    let mut cidx: usize = 0;
    match cur {
        Some(id) => {
            let mut k: usize = 0;
            let mut found: bool = false;
            proof {
                assert(ov.skip(0) =~= ov);
            }
            while k < opts.len()
                invariant
                    !found,
                    *form == *old(form),
                    k <= ov.len(),
                    ov.len() == opts@.len(),
                    index_of_option(ov, id) == match index_of_option(ov.skip(k as int), id) {
                        Some(i) => Some(i + k),
                        None => None,
                    },
                decreases ov.len() - k,
            {
                proof {
                    assert(opts@[k as int]@ == ov[k as int]);
                    assert(ov.skip(k as int)[0] == ov[k as int]);
                    assert(ov.skip(k as int).drop_first() =~= ov.skip(k + 1));
                }
                if opts[k].id == id {
                    found = true;
                    cidx = k;
                    proof {
                        assert(index_of_option(ov.skip(k as int), id) == Some(0int));
                    }
                    break;
                }
                k = k + 1;
            }
            if !found {
                proof {
                    assert(ov.skip(ov.len() as int).len() == 0);
                    assert(index_of_option(ov, id) is None);
                }
                cidx = 0;
            }
        },
        None => {},
    }
    proof {
        assert(cidx as int == current_option_index(ov, cur));
    }
    let len: usize = opts.len();
    let nidx: usize = if direction > 0 {
        if cidx + 1 < len {
            cidx + 1
        } else {
            0
        }
    } else if cidx > 0 {
        cidx - 1
    } else {
        len - 1
    };
    proof {
        assert(cidx < len);
        if direction > 0 {
            if cidx + 1 < len {
                vstd::arithmetic::div_mod::lemma_small_mod((cidx + 1) as nat, len as nat);
            } else {
                vstd::arithmetic::div_mod::lemma_mod_self_0(len as int);
            }
        }
        assert(nidx as int == nav_index(len as int, cidx as int, direction > 0));
        assert(opts@[nidx as int]@ == ov[nidx as int]);
    }
    let new_id: u64 = opts[nidx].id;
    form.set_value(String::from_str(field_key), FieldValue::OptionId(Some(new_id)));
}

/// Confirm a searchable dropdown's search: a single narrowed match is
/// selected and the search closed; with several matches and a current
/// selection among them the search just closes; anything else reports
/// how many entries match.
#[verifier::loop_isolation(false)]
pub fn handle_dropdown_enter(
    form: &mut IssueForm,
    field_key: &str,
    status_message: &mut Option<String>,
)
    ensures
        ({
            let opts = spec_filtered_of(*old(form), field_key@);
            let cur = spec_selected_id(*old(form), field_key@);
            if opts.len() == 1 {
                &&& values_view(final(form).values@) == assoc_set(
                    values_view(old(form).values@),
                    field_key@,
                    FieldValueView::OptionId(Some(opts[0].id)),
                )
                &&& texts_view(final(form).search_text@) == assoc_remove(
                    texts_view(old(form).search_text@),
                    field_key@,
                )
                &&& modes_view(final(form).search_mode@) == assoc_remove(
                    modes_view(old(form).search_mode@),
                    field_key@,
                )
                &&& final(form).fields == old(form).fields
                &&& final(form).current_field_idx == old(form).current_field_idx
                &&& final(form).scroll_offset == old(form).scroll_offset
                &&& (*final(status_message) matches Some(m) && m@ == "Selected: "@ + opts[0].name)
            } else if opts.len() > 1 && (cur matches Some(c) && find_option_name(opts, c)
                is Some) {
                &&& final(form).values == old(form).values
                &&& texts_view(final(form).search_text@) == assoc_remove(
                    texts_view(old(form).search_text@),
                    field_key@,
                )
                &&& modes_view(final(form).search_mode@) == assoc_remove(
                    modes_view(old(form).search_mode@),
                    field_key@,
                )
                &&& final(form).fields == old(form).fields
                &&& final(form).current_field_idx == old(form).current_field_idx
                &&& final(form).scroll_offset == old(form).scroll_offset
                &&& (cur matches Some(c) && find_option_name(opts, c) matches Some(nm)
                    && *final(status_message) matches Some(m) && m@ == "Selected: "@ + nm)
            } else {
                &&& *final(form) == *old(form)
                &&& (*final(status_message) matches Some(m) && m@ == crate::text::dec_chars(
                    opts.len() as u64,
                ) + " matches - ↑↓ or Tab to navigate, Enter to select"@)
            }
        }),
{
    let opts = form.get_filtered_options(field_key);
    let ghost ov = spec_filtered_of(*form, field_key@);
    proof {
        assert(options_view(opts@) == ov);
    }
    let cur: Option<u64> = match form.get_value(field_key) {
        Some(v) => v.as_option_id(),
        None => None,
    };
    proof {
        assert(cur == spec_selected_id(*form, field_key@));
    }
    if opts.len() == 1 {
        proof {
            assert(opts@[0]@ == ov[0]);
        }
        let selected_id: u64 = opts[0].id;
        let selected_name: String = opts[0].name.clone();
        form.set_value(String::from_str(field_key), FieldValue::OptionId(Some(selected_id)));
        form.clear_search(field_key);
        *status_message = Some(String::from_str("Selected: ").concat(selected_name.as_str()));
        return;
    }
    if opts.len() > 1 {
        match cur {
            Some(c) => {
                let mut k: usize = 0;
                proof {
                    assert(ov.skip(0) =~= ov);
                }
                while k < opts.len()
                    invariant
                        *form == *old(form),
                        k <= ov.len(),
                        ov.len() == opts@.len(),
                        find_option_name(ov, c) == find_option_name(ov.skip(k as int), c),
                    decreases ov.len() - k,
                {
                    proof {
                        assert(opts@[k as int]@ == ov[k as int]);
                        assert(ov.skip(k as int)[0] == ov[k as int]);
                        assert(ov.skip(k as int).drop_first() =~= ov.skip(k + 1));
                    }
                    if opts[k].id == c {
                        let name: String = opts[k].name.clone();
                        proof {
                            assert(find_option_name(ov, c) == Some(ov[k as int].name));
                            assert(name@ == ov[k as int].name);
                        }
                        form.clear_search(field_key);
                        *status_message = Some(
                            String::from_str("Selected: ").concat(name.as_str()),
                        );
                        proof {
                            assert(form.values == old(form).values);
                            assert(form.fields == old(form).fields);
                            assert(texts_view(form.search_text@) == assoc_remove(
                                texts_view(old(form).search_text@),
                                field_key@,
                            ));
                            assert(modes_view(form.search_mode@) == assoc_remove(
                                modes_view(old(form).search_mode@),
                                field_key@,
                            ));
                            assert(ov.len() > 1);
                            assert(cur matches Some(cc) && find_option_name(ov, cc) is Some);
                            assert(*status_message matches Some(m) && m@ == "Selected: "@
                                + ov[k as int].name);
                        }
                        return;
                    }
                    k = k + 1;
                }
                proof {
                    assert(ov.skip(ov.len() as int).len() == 0);
                    assert(find_option_name(ov, c) is None);
                }
            },
            None => {},
        }
    }
    let count: u64 = opts.len() as u64;
    let msg = crate::text::u64_to_string(count).concat(
        " matches - ↑↓ or Tab to navigate, Enter to select",
    );
    *status_message = Some(msg);
}

// The standard forms: field layouts built from the cached lookup lists.

/// Trackers as dropdown options.
pub open spec fn tracker_option_views(ts: Seq<Tracker>) -> Seq<FieldOptionView> {
    ts.map_values(|t: Tracker| FieldOptionView { id: t.id, name: t.name@ })
}

/// Statuses as dropdown options.
pub open spec fn status_option_views(ss: Seq<IssueStatus>) -> Seq<FieldOptionView> {
    ss.map_values(|t: IssueStatus| FieldOptionView { id: t.id, name: t.name@ })
}

/// Priorities as dropdown options.
pub open spec fn priority_option_views(ps: Seq<Priority>) -> Seq<FieldOptionView> {
    ps.map_values(|t: Priority| FieldOptionView { id: t.id, name: t.name@ })
}

/// Categories as dropdown options, with a none-entry first.
pub open spec fn category_option_views(cs: Seq<IssueCategory>) -> Seq<FieldOptionView> {
    seq![FieldOptionView { id: 0u64, name: "(None)"@ }] + cs.map_values(
        |t: IssueCategory| FieldOptionView { id: t.id, name: t.name@ },
    )
}

/// A user's display name: first and last name joined, dropping an
/// absent part.
pub open spec fn user_display_name(f: Seq<char>, l: Seq<char>) -> Seq<char> {
    if f.len() == 0 {
        l
    } else if l.len() == 0 {
        f
    } else {
        f + " "@ + l
    }
}

/// Keep-predicate for listable users: the reserved id 0 is left out.
pub open spec fn real_user_fn() -> spec_fn(User) -> bool {
    |u: User| u.id != 0
}

/// Users as dropdown options, before ordering.
pub open spec fn user_option_views(us: Seq<User>) -> Seq<FieldOptionView> {
    us.filter(real_user_fn()).map_values(
        |u: User| FieldOptionView { id: u.id, name: user_display_name(u.firstname@, u.lastname@) },
    )
}

/// Ordering options by name, case-insensitively.
pub open spec fn name_ci_leq_fn() -> spec_fn(FieldOptionView, FieldOptionView) -> bool {
    |a: FieldOptionView, b: FieldOptionView| lex_leq(lower_seq(a.name), lower_seq(b.name))
}

/// The assignee dropdown: an unassigned-entry first, then every real
/// user by name.
pub open spec fn assignee_option_views(us: Seq<User>) -> Seq<FieldOptionView> {
    seq![FieldOptionView { id: 0u64, name: "(Unassigned)"@ }] + sort_by_asc(
        user_option_views(us),
        name_ci_leq_fn(),
    )
}

/// The id of the first option named `target`, case-insensitively.
pub open spec fn first_option_named(xs: Seq<FieldOptionView>, target: Seq<char>) -> Option<u64>
    decreases xs.len(),
{
    if xs.len() == 0 {
        None
    } else if lower_seq(xs[0].name) == target {
        Some(xs[0].id)
    } else {
        first_option_named(xs.drop_first(), target)
    }
}

/// The default selection: the option named `target` if there is one,
/// else the first option, else nothing.
pub open spec fn default_option_id(xs: Seq<FieldOptionView>, target: Seq<char>) -> Option<u64> {
    match first_option_named(xs, target) {
        Some(id) => Some(id),
        None => if xs.len() > 0 {
            Some(xs[0].id)
        } else {
            None
        },
    }
}

/// The field key a custom field is stored under.
pub open spec fn custom_field_key(id: u64) -> Seq<char> {
    "custom_field_"@ + dec_chars(id)
}

// Field-view shapes, shared by the builders' contracts.

/// A text field's view.
pub open spec fn text_field(key: Seq<char>, label: Seq<char>, required: bool) -> FormFieldView {
    FormFieldView {
        key,
        label,
        field_type: FieldType::Text,
        required,
        options: Seq::empty(),
        default_value: Some(FieldValueView::Text(Seq::empty())),
        help_text: None,
    }
}

/// A textarea field's view.
pub open spec fn textarea_field(key: Seq<char>, label: Seq<char>, required: bool) -> FormFieldView {
    FormFieldView {
        key,
        label,
        field_type: FieldType::TextArea,
        required,
        options: Seq::empty(),
        default_value: Some(FieldValueView::Text(Seq::empty())),
        help_text: None,
    }
}

/// A date field's view.
pub open spec fn date_field(key: Seq<char>, label: Seq<char>, required: bool) -> FormFieldView {
    FormFieldView {
        key,
        label,
        field_type: FieldType::Date,
        required,
        options: Seq::empty(),
        default_value: Some(FieldValueView::Text(Seq::empty())),
        help_text: Some("Format: YYYY-MM-DD"@),
    }
}

/// A float field's view; its value lives as text.
pub open spec fn float_field(key: Seq<char>, label: Seq<char>, required: bool) -> FormFieldView {
    FormFieldView {
        key,
        label,
        field_type: FieldType::Float,
        required,
        options: Seq::empty(),
        default_value: Some(FieldValueView::Text(Seq::empty())),
        help_text: None,
    }
}

/// A progress field's view, with its starting percentage.
pub open spec fn progress_field(key: Seq<char>, label: Seq<char>, default: Option<u32>) -> FormFieldView {
    FormFieldView {
        key,
        label,
        field_type: FieldType::Progress,
        required: false,
        options: Seq::empty(),
        default_value: Some(FieldValueView::Number(default)),
        help_text: Some("0-100%"@),
    }
}

/// A checkbox field's view.
pub open spec fn checkbox_field(key: Seq<char>, label: Seq<char>) -> FormFieldView {
    FormFieldView {
        key,
        label,
        field_type: FieldType::Checkbox,
        required: false,
        options: Seq::empty(),
        default_value: Some(FieldValueView::Boolean(false)),
        help_text: None,
    }
}

/// A plain dropdown field's view, with no starting selection.
pub open spec fn dropdown_field(
    key: Seq<char>,
    label: Seq<char>,
    options: Seq<FieldOptionView>,
    required: bool,
) -> FormFieldView {
    FormFieldView {
        key,
        label,
        field_type: FieldType::Dropdown,
        required,
        options,
        default_value: Some(FieldValueView::OptionId(None)),
        help_text: None,
    }
}

/// A searchable dropdown field's view, with its starting selection.
pub open spec fn searchable_field(
    key: Seq<char>,
    label: Seq<char>,
    options: Seq<FieldOptionView>,
    required: bool,
    default_id: Option<u64>,
) -> FormFieldView {
    FormFieldView {
        key,
        label,
        field_type: FieldType::SearchableDropdown,
        required,
        options,
        default_value: Some(FieldValueView::OptionId(default_id)),
        help_text: None,
    }
}

/// The values a fresh form holds after its fields are added in order:
/// each field's default written under its key.
pub open spec fn values_after_fields(
    base: Seq<(Seq<char>, FieldValueView)>,
    fields: Seq<FormFieldView>,
) -> Seq<(Seq<char>, FieldValueView)>
    decreases fields.len(),
{
    if fields.len() == 0 {
        base
    } else {
        values_after_fields(
            match fields[0].default_value {
                Some(d) => assoc_set(base, fields[0].key, d),
                None => base,
            },
            fields.drop_first(),
        )
    }
}

/// Adding one more field writes one more default.
pub proof fn lemma_values_after_push(
    base: Seq<(Seq<char>, FieldValueView)>,
    fields: Seq<FormFieldView>,
    f: FormFieldView,
)
    ensures
        values_after_fields(base, fields.push(f)) == (match f.default_value {
            Some(d) => assoc_set(values_after_fields(base, fields), f.key, d),
            None => values_after_fields(base, fields),
        }),
    decreases fields.len(),
{
    if fields.len() == 0 {
        assert(fields.push(f)[0] == f);
        assert(fields.push(f).drop_first() =~= fields);
        let basef = match f.default_value {
            Some(d) => assoc_set(base, f.key, d),
            None => base,
        };
        assert(values_after_fields(base, fields.push(f)) == values_after_fields(basef, fields));
        assert(values_after_fields(basef, fields) == basef);
        assert(values_after_fields(base, fields) == base);
    } else {
        assert(fields.push(f)[0] == fields[0]);
        assert(fields.push(f).drop_first() =~= fields.drop_first().push(f));
        let base1 = match fields[0].default_value {
            Some(d) => assoc_set(base, fields[0].key, d),
            None => base,
        };
        assert(values_after_fields(base, fields.push(f)) == values_after_fields(
            base1,
            fields.drop_first().push(f),
        ));
        assert(values_after_fields(base, fields) == values_after_fields(
            base1,
            fields.drop_first(),
        ));
        lemma_values_after_push(base1, fields.drop_first(), f);
    }
}

/// The field layout of the create-issue form.
pub open spec fn spec_new_issue_form_fields(
    trackers: Seq<Tracker>,
    statuses: Seq<IssueStatus>,
    priorities: Seq<Priority>,
    users: Seq<User>,
    categories: Seq<IssueCategory>,
    custom_fields: Seq<IssueCustomField>,
) -> Seq<FormFieldView> {
    seq![
        searchable_field(
            "tracker_id"@,
            "Tracker"@,
            tracker_option_views(trackers),
            true,
            default_option_id(tracker_option_views(trackers), "task"@),
        ),
        text_field("subject"@, "Subject"@, true),
        textarea_field("description"@, "Description"@, false),
        searchable_field(
            "status_id"@,
            "Status"@,
            status_option_views(statuses),
            true,
            default_option_id(status_option_views(statuses), "new"@),
        ),
        searchable_field(
            "priority_id"@,
            "Priority"@,
            priority_option_views(priorities),
            true,
            default_option_id(priority_option_views(priorities), "normal"@),
        ),
        searchable_field("assigned_to_id"@, "Assignee"@, assignee_option_views(users), false, None),
    ] + (if categories.len() > 0 {
        seq![
            dropdown_field("category_id"@, "Category"@, category_option_views(categories), false),
        ]
    } else {
        Seq::<FormFieldView>::empty()
    }) + seq![
        date_field("start_date"@, "Start Date"@, false),
        date_field("due_date"@, "Due Date"@, false),
        float_field("estimated_hours"@, "Estimated Hours"@, false),
        progress_field("done_ratio"@, "% Done"@, Some(0u32)),
    ] + custom_fields.map_values(
        |c: IssueCustomField| text_field(custom_field_key(c.id), c.name@, false),
    )
}

/// The field layout of the update/reply form.
pub open spec fn spec_update_issue_form_fields(
    statuses: Seq<IssueStatus>,
    users: Seq<User>,
    categories: Seq<IssueCategory>,
    current_status_id: u64,
    current_assignee_id: Option<u64>,
    current_done_ratio: Option<u32>,
    current_category_id: Option<u64>,
) -> Seq<FormFieldView> {
    seq![
        textarea_field("notes"@, "Notes (comment)"@, false),
        searchable_field(
            "status_id"@,
            "Status"@,
            status_option_views(statuses),
            false,
            Some(current_status_id),
        ),
        searchable_field(
            "assigned_to_id"@,
            "Assignee"@,
            assignee_option_views(users),
            false,
            current_assignee_id,
        ),
        progress_field("done_ratio"@, "% Done"@, current_done_ratio),
    ] + (if categories.len() > 0 {
        seq![
            searchable_field(
                "category_id"@,
                "Category"@,
                category_option_views(categories),
                false,
                current_category_id,
            ),
        ]
    } else {
        Seq::<FormFieldView>::empty()
    }) + seq![
        date_field("due_date"@, "Due Date"@, false),
        float_field("estimated_hours"@, "Estimated Hours"@, false),
        checkbox_field("private_notes"@, "Private Notes"@),
    ]
}

/// The field layout of the bulk-edit form.
pub open spec fn spec_bulk_edit_form_fields(
    statuses: Seq<IssueStatus>,
    priorities: Seq<Priority>,
    users: Seq<User>,
) -> Seq<FormFieldView> {
    seq![
        searchable_field(
            "status_id"@,
            "Status"@,
            status_option_views(statuses),
            false,
            if statuses.len() > 0 {
                Some(statuses[0].id)
            } else {
                None
            },
        ),
        searchable_field(
            "priority_id"@,
            "Priority"@,
            priority_option_views(priorities),
            false,
            if priorities.len() > 0 {
                Some(priorities[0].id)
            } else {
                None
            },
        ),
        searchable_field(
            "assigned_to_id"@,
            "Assignee"@,
            assignee_option_views(users),
            false,
            Some(0u64),
        ),
    ]
}

/// Trackers as dropdown options, executable.
#[verifier::loop_isolation(false)]
fn tracker_options_exec(ts: &Vec<Tracker>) -> (r: Vec<FieldOption>)
    ensures
        options_view(r@) == tracker_option_views(ts@),
{
    let mut r: Vec<FieldOption> = Vec::new();
    let mut i: usize = 0;
    while i < ts.len()
        invariant
            i <= ts@.len(),
            r@.len() == i,
            forall|k: int| 0 <= k < i ==> r@[k]@ == (FieldOptionView {
                id: (#[trigger] ts@[k]).id,
                name: ts@[k].name@,
            }),
        decreases ts@.len() - i,
    {
        r.push(FieldOption { id: ts[i].id, name: ts[i].name.clone() });
        i = i + 1;
    }
    proof {
        assert(options_view(r@) =~= tracker_option_views(ts@));
    }
    r
}

/// Statuses as dropdown options, executable.
#[verifier::loop_isolation(false)]
fn status_options_exec(ss: &Vec<IssueStatus>) -> (r: Vec<FieldOption>)
    ensures
        options_view(r@) == status_option_views(ss@),
{
    let mut r: Vec<FieldOption> = Vec::new();
    let mut i: usize = 0;
    while i < ss.len()
        invariant
            i <= ss@.len(),
            r@.len() == i,
            forall|k: int| 0 <= k < i ==> r@[k]@ == (FieldOptionView {
                id: (#[trigger] ss@[k]).id,
                name: ss@[k].name@,
            }),
        decreases ss@.len() - i,
    {
        r.push(FieldOption { id: ss[i].id, name: ss[i].name.clone() });
        i = i + 1;
    }
    proof {
        assert(options_view(r@) =~= status_option_views(ss@));
    }
    r
}

/// Priorities as dropdown options, executable.
#[verifier::loop_isolation(false)]
fn priority_options_exec(ps: &Vec<Priority>) -> (r: Vec<FieldOption>)
    ensures
        options_view(r@) == priority_option_views(ps@),
{
    let mut r: Vec<FieldOption> = Vec::new();
    let mut i: usize = 0;
    while i < ps.len()
        invariant
            i <= ps@.len(),
            r@.len() == i,
            forall|k: int| 0 <= k < i ==> r@[k]@ == (FieldOptionView {
                id: (#[trigger] ps@[k]).id,
                name: ps@[k].name@,
            }),
        decreases ps@.len() - i,
    {
        r.push(FieldOption { id: ps[i].id, name: ps[i].name.clone() });
        i = i + 1;
    }
    proof {
        assert(options_view(r@) =~= priority_option_views(ps@));
    }
    r
}

/// Categories as dropdown options with a none-entry first, executable.
#[verifier::loop_isolation(false)]
fn category_options_exec(cs: &Vec<IssueCategory>) -> (r: Vec<FieldOption>)
    ensures
        options_view(r@) == category_option_views(cs@),
{
    let mut r: Vec<FieldOption> = Vec::new();
    r.push(FieldOption { id: 0, name: String::from_str("(None)") });
    let mut i: usize = 0;
    while i < cs.len()
        invariant
            i <= cs@.len(),
            r@.len() == i + 1,
            r@[0]@ == (FieldOptionView { id: 0u64, name: "(None)"@ }),
            forall|k: int| 0 <= k < i ==> r@[k + 1]@ == (FieldOptionView {
                id: (#[trigger] cs@[k]).id,
                name: cs@[k].name@,
            }),
        decreases cs@.len() - i,
    {
        r.push(FieldOption { id: cs[i].id, name: cs[i].name.clone() });
        i = i + 1;
    }
    proof {
        assert(options_view(r@) =~= category_option_views(cs@));
    }
    r
}

/// A user's display name, executable.
fn display_name_exec(u: &User) -> (r: String)
    ensures
        r@ == user_display_name(u.firstname@, u.lastname@),
{
    if u.firstname.as_str().unicode_len() == 0 {
        u.lastname.clone()
    } else if u.lastname.as_str().unicode_len() == 0 {
        u.firstname.clone()
    } else {
        u.firstname.clone().concat(" ").concat(u.lastname.as_str())
    }
}

/// Compare two options by name, case-insensitively, executable.
fn name_ci_leq_exec(a: &FieldOption, b: &FieldOption) -> (r: bool)
    ensures
        r == name_ci_leq_fn()(a@, b@),
{
    let al = lower_chars(&str_chars(a.name.as_str()));
    let bl = lower_chars(&str_chars(b.name.as_str()));
    chars_lex_leq(&al, &bl)
}

/// Insert one option into a name-ordered list, after its equals.
#[verifier::loop_isolation(false)]
fn insert_option_sorted(out: &mut Vec<FieldOption>, x: FieldOption)
    ensures
        options_view(final(out)@) == insert_sorted_by(
            options_view(old(out)@),
            x@,
            name_ci_leq_fn(),
        ),
{
    let ghost s = options_view(out@);
    let mut idx: usize = 0;
    while idx < out.len()
        invariant
            idx <= s.len(),
            forall|j: int| 0 <= j < idx ==> name_ci_leq_fn()(s[j], x@),
        decreases s.len() - idx,
    {
        proof {
            assert(s[idx as int] == out@[idx as int]@);
        }
        if !name_ci_leq_exec(&out[idx], &x) {
            break;
        }
        idx = idx + 1;
    }
    proof {
        assert(idx < s.len() ==> !name_ci_leq_fn()(s[idx as int], x@));
        lemma_insert_sorted_by_at(s, x@, name_ci_leq_fn(), idx as int);
    }
    out.insert(idx, x);
    proof {
        assert(options_view(out@) =~= s.take(idx as int) + seq![x@] + s.skip(idx as int));
    }
}

/// The assignee dropdown, executable: an unassigned-entry, then every
/// real user by name.
#[verifier::loop_isolation(false)]
fn assignee_options_exec(us: &Vec<User>) -> (r: Vec<FieldOption>)
    ensures
        options_view(r@) == assignee_option_views(us@),
{
    let ghost pred = real_user_fn();
    let ghost tou = (|u: User| FieldOptionView {
        id: u.id,
        name: user_display_name(u.firstname@, u.lastname@),
    });
    let mut mapped: Vec<FieldOption> = Vec::new();
    let mut i: usize = 0;
    proof {
        assert(us@.take(0).filter(pred) =~= Seq::<User>::empty());
        reveal(Seq::filter);
    }
    while i < us.len()
        invariant
            i <= us@.len(),
            options_view(mapped@) == us@.take(i as int).filter(pred).map_values(tou),
        decreases us@.len() - i,
    {
        proof {
            crate::db::lemma_filter_take_step(us@, pred, i as int);
        }
        if us[i].id != 0 {
            let ghost before = options_view(mapped@);
            let ghost mapped_before = mapped@;
            let ghost f0 = us@.take(i as int).filter(pred);
            let name = display_name_exec(&us[i]);
            mapped.push(FieldOption { id: us[i].id, name });
            proof {
                let target = us@.take(i + 1).filter(pred).map_values(tou);
                assert(us@.take(i + 1).filter(pred) == f0.push(us@[i as int]));
                assert(before.len() == f0.len());
                assert forall|t: int|
                    0 <= t < f0.len() + 1 implies #[trigger] options_view(mapped@)[t]
                    == target[t] by {
                    if t < f0.len() {
                        assert(mapped@[t] == mapped_before[t]);
                        assert(options_view(mapped_before)[t] == f0.map_values(tou)[t]);
                        assert(target[t] == f0.push(us@[i as int]).map_values(tou)[t]);
                        assert(f0.push(us@[i as int])[t] == f0[t]);
                    } else {
                        assert(options_view(mapped@)[t] == mapped@[t]@);
                        assert(target[t] == tou(f0.push(us@[i as int])[t]));
                        assert(f0.push(us@[i as int])[t] == us@[i as int]);
                    }
                }
                assert(options_view(mapped@) =~= target);
            }
        }
        i = i + 1;
    }
    proof {
        assert(us@.take(us@.len() as int) =~= us@);
        assert(options_view(mapped@) == user_option_views(us@));
    }
    let ghost mv = options_view(mapped@);
    let mut sorted: Vec<FieldOption> = Vec::new();
    let mut j: usize = 0;
    proof {
        assert(mv.take(0) =~= Seq::<FieldOptionView>::empty());
    }
    while j < mapped.len()
        invariant
            j <= mv.len(),
            mv.len() == mapped@.len(),
            mv == options_view(mapped@),
            options_view(sorted@) == sort_by_asc(mv.take(j as int), name_ci_leq_fn()),
        decreases mv.len() - j,
    {
        proof {
            assert(mapped@[j as int]@ == mv[j as int]);
        }
        insert_option_sorted(&mut sorted, copy_field_option(&mapped[j]));
        proof {
            lemma_sort_by_asc_push(mv.take(j as int), mv[j as int], name_ci_leq_fn());
            assert(mv.take(j + 1) =~= mv.take(j as int).push(mv[j as int]));
        }
        j = j + 1;
    }
    proof {
        assert(mv.take(mv.len() as int) =~= mv);
    }
    let mut sorted = sorted;
    let ghost sv = options_view(sorted@);
    sorted.insert(0, FieldOption { id: 0, name: String::from_str("(Unassigned)") });
    proof {
        assert(options_view(sorted@) =~= seq![
            FieldOptionView { id: 0u64, name: "(Unassigned)"@ },
        ] + sv);
    }
    sorted
}

/// The default selection for a searchable dropdown, executable: the
/// option named `target` (case-insensitively), else the first option.
#[verifier::loop_isolation(false)]
fn default_option_exec(opts: &Vec<FieldOption>, target: &str) -> (r: Option<u64>)
    ensures
        r == default_option_id(options_view(opts@), target@),
{
    let ghost ov = options_view(opts@);
    let target_chars = str_chars(target);
    let mut i: usize = 0;
    proof {
        assert(ov.skip(0) =~= ov);
    }
    while i < opts.len()
        invariant
            i <= ov.len(),
            ov.len() == opts@.len(),
            first_option_named(ov, target@) == first_option_named(ov.skip(i as int), target@),
        decreases ov.len() - i,
    {
        proof {
            assert(opts@[i as int]@ == ov[i as int]);
            assert(ov.skip(i as int)[0] == ov[i as int]);
            assert(ov.skip(i as int).drop_first() =~= ov.skip(i + 1));
        }
        let low = lower_chars(&str_chars(opts[i].name.as_str()));
        if chars_eq(&low, &target_chars) {
            proof {
                assert(lower_seq(ov[i as int].name) == target@);
                assert(first_option_named(ov.skip(i as int), target@) == Some(
                    ov[i as int].id,
                ));
            }
            return Some(opts[i].id);
        }
        i = i + 1;
    }
    proof {
        assert(ov.skip(ov.len() as int).len() == 0);
        assert(first_option_named(ov, target@) is None);
    }
    if opts.len() > 0 {
        proof {
            assert(opts@[0]@ == ov[0]);
        }
        Some(opts[0].id)
    } else {
        None
    }
}

// Rebuilding the create form when the tracker changes, preserving what
// the user already entered.

/// The index of the first field carrying this key.
pub open spec fn find_field_index(fields: Seq<FormFieldView>, key: Seq<char>) -> Option<int>
    decreases fields.len(),
{
    if fields.len() == 0 {
        None
    } else if fields[0].key == key {
        Some(0)
    } else {
        match find_field_index(fields.drop_first(), key) {
            Some(i) => Some(i + 1),
            None => None,
        }
    }
}

/// Values carried over from the old form: walking its fields in order,
/// each key that still exists in the new layout keeps its old value.
pub open spec fn preserved_values(
    acc: Seq<(Seq<char>, FieldValueView)>,
    new_fields: Seq<FormFieldView>,
    old_fields: Seq<FormFieldView>,
    old: IssueForm,
) -> Seq<(Seq<char>, FieldValueView)>
    decreases old_fields.len(),
{
    if old_fields.len() == 0 {
        acc
    } else {
        let k = old_fields[0].key;
        let acc2 = match old.spec_value(k) {
            Some(v) => if find_field(new_fields, k) is Some {
                assoc_set(acc, k, v)
            } else {
                acc
            },
            None => acc,
        };
        preserved_values(acc2, new_fields, old_fields.drop_first(), old)
    }
}

/// Search text carried over: non-empty search text survives for keys
/// that still exist.
pub open spec fn preserved_texts(
    acc: Seq<(Seq<char>, Seq<char>)>,
    new_fields: Seq<FormFieldView>,
    old_fields: Seq<FormFieldView>,
    old: IssueForm,
) -> Seq<(Seq<char>, Seq<char>)>
    decreases old_fields.len(),
{
    if old_fields.len() == 0 {
        acc
    } else {
        let k = old_fields[0].key;
        let acc2 = if old.spec_search_text(k).len() > 0 && find_field(new_fields, k) is Some {
            assoc_set(acc, k, old.spec_search_text(k))
        } else {
            acc
        };
        preserved_texts(acc2, new_fields, old_fields.drop_first(), old)
    }
}

/// Search mode carried over: an open search survives for keys that
/// still exist.
pub open spec fn preserved_modes(
    acc: Seq<(Seq<char>, bool)>,
    new_fields: Seq<FormFieldView>,
    old_fields: Seq<FormFieldView>,
    old: IssueForm,
) -> Seq<(Seq<char>, bool)>
    decreases old_fields.len(),
{
    if old_fields.len() == 0 {
        acc
    } else {
        let k = old_fields[0].key;
        let acc2 = if old.spec_search_mode(k) && find_field(new_fields, k) is Some {
            assoc_set(acc, k, true)
        } else {
            acc
        };
        preserved_modes(acc2, new_fields, old_fields.drop_first(), old)
    }
}

/// Carrying one more old field over is one more conditional write.
proof fn lemma_preserved_values_push(
    acc: Seq<(Seq<char>, FieldValueView)>,
    new_fields: Seq<FormFieldView>,
    old_fields: Seq<FormFieldView>,
    f: FormFieldView,
    old: IssueForm,
)
    ensures
        preserved_values(acc, new_fields, old_fields.push(f), old) == ({
            let base = preserved_values(acc, new_fields, old_fields, old);
            match old.spec_value(f.key) {
                Some(v) => if find_field(new_fields, f.key) is Some {
                    assoc_set(base, f.key, v)
                } else {
                    base
                },
                None => base,
            }
        }),
    decreases old_fields.len(),
{
    if old_fields.len() == 0 {
        assert(old_fields.push(f)[0] == f);
        assert(old_fields.push(f).drop_first() =~= old_fields);
        let acc2 = match old.spec_value(f.key) {
            Some(v) => if find_field(new_fields, f.key) is Some {
                assoc_set(acc, f.key, v)
            } else {
                acc
            },
            None => acc,
        };
        assert(preserved_values(acc, new_fields, old_fields.push(f), old) == preserved_values(
            acc2,
            new_fields,
            old_fields,
            old,
        ));
        assert(preserved_values(acc2, new_fields, old_fields, old) == acc2);
        assert(preserved_values(acc, new_fields, old_fields, old) == acc);
    } else {
        assert(old_fields.push(f)[0] == old_fields[0]);
        assert(old_fields.push(f).drop_first() =~= old_fields.drop_first().push(f));
        let k = old_fields[0].key;
        let acc2 = match old.spec_value(k) {
            Some(v) => if find_field(new_fields, k) is Some {
                assoc_set(acc, k, v)
            } else {
                acc
            },
            None => acc,
        };
        assert(preserved_values(acc, new_fields, old_fields.push(f), old) == preserved_values(
            acc2,
            new_fields,
            old_fields.drop_first().push(f),
            old,
        ));
        assert(preserved_values(acc, new_fields, old_fields, old) == preserved_values(
            acc2,
            new_fields,
            old_fields.drop_first(),
            old,
        ));
        lemma_preserved_values_push(acc2, new_fields, old_fields.drop_first(), f, old);
    }
}

/// Carrying one more old field's search text over.
proof fn lemma_preserved_texts_push(
    acc: Seq<(Seq<char>, Seq<char>)>,
    new_fields: Seq<FormFieldView>,
    old_fields: Seq<FormFieldView>,
    f: FormFieldView,
    old: IssueForm,
)
    ensures
        preserved_texts(acc, new_fields, old_fields.push(f), old) == ({
            let base = preserved_texts(acc, new_fields, old_fields, old);
            if old.spec_search_text(f.key).len() > 0 && find_field(new_fields, f.key) is Some {
                assoc_set(base, f.key, old.spec_search_text(f.key))
            } else {
                base
            }
        }),
    decreases old_fields.len(),
{
    if old_fields.len() == 0 {
        assert(old_fields.push(f)[0] == f);
        assert(old_fields.push(f).drop_first() =~= old_fields);
        let acc2 = if old.spec_search_text(f.key).len() > 0 && find_field(new_fields, f.key)
            is Some {
            assoc_set(acc, f.key, old.spec_search_text(f.key))
        } else {
            acc
        };
        assert(preserved_texts(acc, new_fields, old_fields.push(f), old) == preserved_texts(
            acc2,
            new_fields,
            old_fields,
            old,
        ));
        assert(preserved_texts(acc2, new_fields, old_fields, old) == acc2);
        assert(preserved_texts(acc, new_fields, old_fields, old) == acc);
    } else {
        assert(old_fields.push(f)[0] == old_fields[0]);
        assert(old_fields.push(f).drop_first() =~= old_fields.drop_first().push(f));
        let k = old_fields[0].key;
        let acc2 = if old.spec_search_text(k).len() > 0 && find_field(new_fields, k) is Some {
            assoc_set(acc, k, old.spec_search_text(k))
        } else {
            acc
        };
        assert(preserved_texts(acc, new_fields, old_fields.push(f), old) == preserved_texts(
            acc2,
            new_fields,
            old_fields.drop_first().push(f),
            old,
        ));
        assert(preserved_texts(acc, new_fields, old_fields, old) == preserved_texts(
            acc2,
            new_fields,
            old_fields.drop_first(),
            old,
        ));
        lemma_preserved_texts_push(acc2, new_fields, old_fields.drop_first(), f, old);
    }
}

/// Carrying one more old field's search mode over.
proof fn lemma_preserved_modes_push(
    acc: Seq<(Seq<char>, bool)>,
    new_fields: Seq<FormFieldView>,
    old_fields: Seq<FormFieldView>,
    f: FormFieldView,
    old: IssueForm,
)
    ensures
        preserved_modes(acc, new_fields, old_fields.push(f), old) == ({
            let base = preserved_modes(acc, new_fields, old_fields, old);
            if old.spec_search_mode(f.key) && find_field(new_fields, f.key) is Some {
                assoc_set(base, f.key, true)
            } else {
                base
            }
        }),
    decreases old_fields.len(),
{
    if old_fields.len() == 0 {
        assert(old_fields.push(f)[0] == f);
        assert(old_fields.push(f).drop_first() =~= old_fields);
        let acc2 = if old.spec_search_mode(f.key) && find_field(new_fields, f.key) is Some {
            assoc_set(acc, f.key, true)
        } else {
            acc
        };
        assert(preserved_modes(acc, new_fields, old_fields.push(f), old) == preserved_modes(
            acc2,
            new_fields,
            old_fields,
            old,
        ));
        assert(preserved_modes(acc2, new_fields, old_fields, old) == acc2);
        assert(preserved_modes(acc, new_fields, old_fields, old) == acc);
    } else {
        assert(old_fields.push(f)[0] == old_fields[0]);
        assert(old_fields.push(f).drop_first() =~= old_fields.drop_first().push(f));
        let k = old_fields[0].key;
        let acc2 = if old.spec_search_mode(k) && find_field(new_fields, k) is Some {
            assoc_set(acc, k, true)
        } else {
            acc
        };
        assert(preserved_modes(acc, new_fields, old_fields.push(f), old) == preserved_modes(
            acc2,
            new_fields,
            old_fields.drop_first().push(f),
            old,
        ));
        assert(preserved_modes(acc, new_fields, old_fields, old) == preserved_modes(
            acc2,
            new_fields,
            old_fields.drop_first(),
            old,
        ));
        lemma_preserved_modes_push(acc2, new_fields, old_fields.drop_first(), f, old);
    }
}

/// Whether any field carries this key.
#[verifier::loop_isolation(false)]
fn field_exists(fields: &Vec<FormField>, key: &str) -> (r: bool)
    ensures
        r == (find_field(fields_view(fields@), key@) is Some),
{
    let ghost fv = fields_view(fields@);
    let mut i: usize = 0;
    proof {
        assert(fv.skip(0) =~= fv);
    }
    while i < fields.len()
        invariant
            i <= fv.len(),
            fv.len() == fields@.len(),
            find_field(fv, key@) == find_field(fv.skip(i as int), key@),
        decreases fv.len() - i,
    {
        proof {
            assert(fields@[i as int]@ == fv[i as int]);
            assert(fv.skip(i as int)[0] == fv[i as int]);
            assert(fv.skip(i as int).drop_first() =~= fv.skip(i + 1));
        }
        if str_eq(fields[i].key.as_str(), key) {
            return true;
        }
        i = i + 1;
    }
    proof {
        assert(fv.skip(fv.len() as int).len() == 0);
    }
    false
}

/// Rebuild the create-issue form for a (possibly changed) tracker,
/// preserving the user's entered values, open searches and cursor for
/// every field key the new layout still has.
#[verifier::loop_isolation(false)]
pub fn rebuild_create_issue_form_preserving_values(
    old_form: &IssueForm,
    trackers: &Vec<Tracker>,
    statuses: &Vec<IssueStatus>,
    priorities: &Vec<Priority>,
    users: &Vec<User>,
    categories: &Vec<IssueCategory>,
    custom_fields: &Vec<IssueCustomField>,
) -> (r: IssueForm)
    ensures
        ({
            let nf = spec_new_issue_form_fields(
                trackers@,
                statuses@,
                priorities@,
                users@,
                categories@,
                custom_fields@,
            );
            let of = fields_view(old_form.fields@);
            &&& fields_view(r.fields@) == nf
            &&& values_view(r.values@) == preserved_values(
                values_after_fields(Seq::empty(), nf),
                nf,
                of,
                *old_form,
            )
            &&& texts_view(r.search_text@) == preserved_texts(Seq::empty(), nf, of, *old_form)
            &&& modes_view(r.search_mode@) == preserved_modes(Seq::empty(), nf, of, *old_form)
            &&& r.current_field_idx == (if old_form.current_field_idx < of.len() {
                match find_field_index(nf, of[old_form.current_field_idx as int].key) {
                    Some(i) => i,
                    None => 0,
                }
            } else {
                0
            })
            &&& r.scroll_offset == 0
        }),
{
    let ghost nf = spec_new_issue_form_fields(
        trackers@,
        statuses@,
        priorities@,
        users@,
        categories@,
        custom_fields@,
    );
    let ghost of = fields_view(old_form.fields@);
    let mut form = IssueForm::new_issue_form_with_custom_fields(
        trackers,
        statuses,
        priorities,
        users,
        categories,
        custom_fields,
    );
    let ghost base_values = values_view(form.values@);
    let mut i: usize = 0;
    proof {
        assert(of.take(0) =~= Seq::<FormFieldView>::empty());
        assert(values_view(form.values@) == preserved_values(base_values, nf, of.take(0), *old_form));
    }
    while i < old_form.fields.len()
        invariant
            i <= of.len(),
            of.len() == old_form.fields@.len(),
            fields_view(form.fields@) == nf,
            values_view(form.values@) == preserved_values(
                base_values,
                nf,
                of.take(i as int),
                *old_form,
            ),
            form.search_text@.len() == 0,
            form.search_mode@.len() == 0,
            form.current_field_idx == 0,
            form.scroll_offset == 0,
        decreases of.len() - i,
    {
        proof {
            assert(old_form.fields@[i as int]@ == of[i as int]);
        }
        let key: &String = &old_form.fields[i].key;
        match old_form.get_value(key.as_str()) {
            Some(v) => {
                if field_exists(&form.fields, key.as_str()) {
                    let vc = copy_field_value(v);
                    form.set_value(key.clone(), vc);
                }
            },
            None => {},
        }
        proof {
            lemma_preserved_values_push(base_values, nf, of.take(i as int), of[i as int], *old_form);
            assert(of.take(i + 1) =~= of.take(i as int).push(of[i as int]));
        }
        i = i + 1;
    }
    proof {
        assert(of.take(of.len() as int) =~= of);
    }
    let mut j: usize = 0;
    proof {
        assert(texts_view(form.search_text@) =~= preserved_texts(
            Seq::<(Seq<char>, Seq<char>)>::empty(),
            nf,
            of.take(0),
            *old_form,
        ));
    }
    while j < old_form.fields.len()
        invariant
            j <= of.len(),
            of.len() == old_form.fields@.len(),
            fields_view(form.fields@) == nf,
            values_view(form.values@) == preserved_values(base_values, nf, of, *old_form),
            texts_view(form.search_text@) == preserved_texts(
                Seq::empty(),
                nf,
                of.take(j as int),
                *old_form,
            ),
            form.search_mode@.len() == 0,
            form.current_field_idx == 0,
            form.scroll_offset == 0,
        decreases of.len() - j,
    {
        proof {
            assert(old_form.fields@[j as int]@ == of[j as int]);
        }
        let key: &String = &old_form.fields[j].key;
        let text = old_form.get_search_text(key.as_str());
        if text.as_str().unicode_len() > 0 {
            if field_exists(&form.fields, key.as_str()) {
                form.set_search_text(key.clone(), text);
            }
        }
        proof {
            lemma_preserved_texts_push(Seq::empty(), nf, of.take(j as int), of[j as int], *old_form);
            assert(of.take(j + 1) =~= of.take(j as int).push(of[j as int]));
        }
        j = j + 1;
    }
    proof {
        assert(of.take(of.len() as int) =~= of);
    }
    let mut t: usize = 0;
    proof {
        assert(modes_view(form.search_mode@) =~= preserved_modes(
            Seq::<(Seq<char>, bool)>::empty(),
            nf,
            of.take(0),
            *old_form,
        ));
    }
    while t < old_form.fields.len()
        invariant
            t <= of.len(),
            of.len() == old_form.fields@.len(),
            fields_view(form.fields@) == nf,
            values_view(form.values@) == preserved_values(base_values, nf, of, *old_form),
            texts_view(form.search_text@) == preserved_texts(Seq::empty(), nf, of, *old_form),
            modes_view(form.search_mode@) == preserved_modes(
                Seq::empty(),
                nf,
                of.take(t as int),
                *old_form,
            ),
            form.current_field_idx == 0,
            form.scroll_offset == 0,
        decreases of.len() - t,
    {
        proof {
            assert(old_form.fields@[t as int]@ == of[t as int]);
        }
        let key: &String = &old_form.fields[t].key;
        if old_form.is_search_mode(key.as_str()) {
            if field_exists(&form.fields, key.as_str()) {
                form.set_search_mode(key.clone(), true);
            }
        }
        proof {
            lemma_preserved_modes_push(Seq::empty(), nf, of.take(t as int), of[t as int], *old_form);
            assert(of.take(t + 1) =~= of.take(t as int).push(of[t as int]));
        }
        t = t + 1;
    }
    proof {
        assert(of.take(of.len() as int) =~= of);
    }
    if old_form.current_field_idx < old_form.fields.len() {
        proof {
            assert(old_form.fields@[old_form.current_field_idx as int]@
                == of[old_form.current_field_idx as int]);
        }
        let key: &String = &old_form.fields[old_form.current_field_idx].key;
        let ghost kv = of[old_form.current_field_idx as int].key;
        let mut w: usize = 0;
        let mut found: bool = false;
        proof {
            assert(nf.skip(0) =~= nf);
        }
        while w < form.fields.len()
            invariant
                !found,
                w <= nf.len(),
                nf.len() == form.fields@.len(),
                fields_view(form.fields@) == nf,
                find_field_index(nf, kv) == match find_field_index(nf.skip(w as int), kv) {
                    Some(i) => Some(i + w),
                    None => None,
                },
            decreases nf.len() - w,
        {
            proof {
                assert(form.fields@[w as int]@ == nf[w as int]);
                assert(nf.skip(w as int)[0] == nf[w as int]);
                assert(nf.skip(w as int).drop_first() =~= nf.skip(w + 1));
            }
            if str_eq(form.fields[w].key.as_str(), key.as_str()) {
                found = true;
                proof {
                    assert(find_field_index(nf.skip(w as int), kv) == Some(0int));
                }
                break;
            }
            w = w + 1;
        }
        if found {
            form.current_field_idx = w;
        } else {
            proof {
                assert(nf.skip(nf.len() as int).len() == 0);
                assert(find_field_index(nf, kv) is None);
            }
            form.current_field_idx = 0;
        }
    }
    form
}

/// Copy of a [`FieldOption`], equal in value.
pub fn copy_field_option(o: &FieldOption) -> (r: FieldOption)
    ensures
        r@ == o@,
{
    FieldOption { id: o.id, name: o.name.clone() }
}

/// ASCII-lowercase copy of a character vector.
#[verifier::loop_isolation(false)]
fn lower_chars(v: &Vec<char>) -> (r: Vec<char>)
    ensures
        r@ == lower_seq(v@),
{
    let mut r: Vec<char> = Vec::new();
    let mut i: usize = 0;
    while i < v.len()
        invariant
            i <= v@.len(),
            r@.len() == i,
            forall|k: int| 0 <= k < i ==> r@[k] == lower_char(#[trigger] v@[k]),
        decreases v@.len() - i,
    {
        r.push(char_to_lower(v[i]));
        i = i + 1;
    }
    proof {
        assert(r@ =~= lower_seq(v@));
    }
    r
}

/// Character-vector equality by value.
#[verifier::loop_isolation(false)]
fn chars_eq(a: &Vec<char>, b: &Vec<char>) -> (r: bool)
    ensures
        r == (a@ == b@),
{
    if a.len() != b.len() {
        return false;
    }
    let mut i: usize = 0;
    while i < a.len()
        invariant
            a@.len() == b@.len(),
            i <= a@.len(),
            forall|k: int| 0 <= k < i ==> a@[k] == b@[k],
        decreases a@.len() - i,
    {
        if a[i] != b[i] {
            return false;
        }
        i = i + 1;
    }
    proof {
        assert(a@ =~= b@);
    }
    true
}

} // verus!
