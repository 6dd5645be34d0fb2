//! The CV data model and the assembler that ranks every section against a
//! term-frequency model, producing an ordered resume view.

use vstd::prelude::*;
use crate::MAX_TEXT_LEN;
use crate::sorting::{
    lemma_insert_by_at, lemma_insert_by_sorted, lemma_sort_by_key_map,
    lemma_sort_by_key_sum, lemma_sum_keys_element, lemma_sum_keys_nonneg,
    lemma_sum_keys_take, sort_by_key, sorted_by, sum_keys,
};
use crate::text::{
    ascii_lower, ascii_lower_chars, chars_of, space_split, split_spaces,
    string_from_chars,
};
use crate::word_cloud::{lemma_score_spec_bound, score_spec, WordCloud};

verus! {

// ------------------------------------------------------------------
// Small cloning helpers with exact contracts.
// ------------------------------------------------------------------

fn clone_string_vec(v: &Vec<String>) -> (r: Vec<String>)
    ensures
        r@ == v@,
{
    let n = v.len();
    let mut r: Vec<String> = Vec::new();
    let mut i: usize = 0;
    while i < n
        invariant
            i <= n,
            n == v@.len(),
            r@ == v@.take(i as int),
        decreases n - i,
    {
        let s = v[i].clone();
        r.push(s);
        proof {
            assert(v@.take(i as int).push(v@[i as int]) =~= v@.take(i + 1 as int));
        }
        i = i + 1;
    }
    proof {
        assert(v@.take(n as int) =~= v@);
    }
    r
}

fn clone_opt_string(o: &Option<String>) -> (r: Option<String>)
    ensures
        r == *o,
{
    match o {
        Option::Some(s) => Option::Some(s.clone()),
        Option::None => Option::None,
    }
}

fn clone_chars(v: &Vec<char>) -> (r: Vec<char>)
    ensures
        r@ == v@,
{
    let n = v.len();
    let mut r: Vec<char> = Vec::new();
    let mut i: usize = 0;
    while i < n
        invariant
            i <= n,
            n == v@.len(),
            r@ == v@.take(i as int),
        decreases n - i,
    {
        let c = v[i];
        r.push(c);
        proof {
            assert(v@.take(i as int).push(v@[i as int]) =~= v@.take(i + 1 as int));
        }
        i = i + 1;
    }
    proof {
        assert(v@.take(n as int) =~= v@);
    }
    r
}

/// The view of an optional string as an optional character sequence.
pub open spec fn opt_str_view(o: Option<String>) -> Option<Seq<char>> {
    match o {
        Option::Some(s) => Option::Some(s@),
        Option::None => Option::None,
    }
}

// ------------------------------------------------------------------
// Date.
// ------------------------------------------------------------------

/// A calendar date: a year with optional month and day.
#[derive(Clone, Copy)]
pub struct Date {
    pub year: i32,
    pub month: Option<u8>,
    pub day: Option<u8>,
}

impl Date {
    pub fn new(year: i32, month: Option<u8>, day: Option<u8>) -> (r: Self)
        ensures
            r == (Date { year, month, day }),
    {
        Date { year, month, day }
    }
}

// ------------------------------------------------------------------
// Phone numbers.
// ------------------------------------------------------------------

/// Whether `c` occurs in `s`.
pub open spec fn contains_char(s: Seq<char>, c: char) -> bool {
    exists|i: int| 0 <= i < s.len() && s[i] == c
}

fn chars_contain(v: &Vec<char>, c: char) -> (r: bool)
    ensures
        r == contains_char(v@, c),
{
    let n = v.len();
    let mut i: usize = 0;
    while i < n
        invariant
            i <= n,
            n == v@.len(),
            forall|k: int| 0 <= k < i ==> v@[k] != c,
        decreases n - i,
    {
        if v[i] == c {
            return true;
        }
        i = i + 1;
    }
    false
}

/// How a phone-number string decomposes, reading its space-separated parts
/// left to right: a part containing `'+'` becomes the country code, a part
/// containing both parentheses becomes the area code, and every other part
/// is appended to the subscriber number.
pub open spec fn phone_parts(parts: Seq<Seq<char>>) -> (Seq<char>, Option<Seq<char>>, Seq<char>)
    decreases parts.len(),
{
    if parts.len() == 0 {
        (Seq::empty(), Option::None, Seq::empty())
    } else {
        let prev = phone_parts(parts.drop_last());
        let p = parts.last();
        if contains_char(p, '+') {
            (p, prev.1, prev.2)
        } else if contains_char(p, '(') && contains_char(p, ')') {
            (prev.0, Option::Some(p), prev.2)
        } else {
            (prev.0, prev.1, prev.2 + p)
        }
    }
}

/// A phone number split into country code, optional area code, and the
/// remaining digits.
pub struct PhoneNumber {
    pub country_code: String,
    pub area_code: Option<String>,
    pub phone_number: String,
}

impl PhoneNumber {
    /// Parses a string like `"+1 (555) 2321 123"`: the part with a `+` is
    /// the country code, a part wrapped in parentheses is the area code,
    /// and all remaining parts are concatenated into the number.
    pub fn new(phone_number_string: String) -> (r: Self)
        ensures
            ({
                let parts = phone_parts(space_split(phone_number_string@));
                &&& r.country_code@ == parts.0
                &&& opt_str_view(r.area_code) == parts.1
                &&& r.phone_number@ == parts.2
            }),
    {
        let pv = chars_of(phone_number_string.as_str());
        let toks = split_spaces(&pv);
        let ghost sp = space_split(pv@);
        let mut cc: Vec<char> = Vec::new();
        let mut ac: Option<Vec<char>> = Option::None;
        let mut pn: Vec<char> = Vec::new();
        let tn = toks.len();
        let mut i: usize = 0;
        proof {
            assert(sp.take(0) =~= Seq::<Seq<char>>::empty());
        }
        while i < tn
            invariant
                i <= tn,
                tn == sp.len(),
                toks@.len() == sp.len(),
                forall|k: int| 0 <= k < tn ==> #[trigger] toks@[k]@ == sp[k],
                ({
                    let st = phone_parts(sp.take(i as int));
                    &&& cc@ == st.0
                    &&& (match ac {
                        Option::Some(a) => Option::Some(a@),
                        Option::None => Option::<Seq<char>>::None,
                    }) == st.1
                    &&& pn@ == st.2
                }),
            decreases tn - i,
        {
            proof {
                assert(sp.take(i + 1 as int).drop_last() =~= sp.take(i as int));
                assert(sp.take(i + 1 as int).last() == sp[i as int]);
            }
            let tok = &toks[i];
            if chars_contain(tok, '+') {
                cc = clone_chars(tok);
            } else if chars_contain(tok, '(') && chars_contain(tok, ')') {
                ac = Option::Some(clone_chars(tok));
            } else {
                let ghost pn_before = pn@;
                let m = tok.len();
                let mut k: usize = 0;
                while k < m
                    invariant
                        k <= m,
                        m == tok@.len(),
                        pn@ == pn_before + tok@.take(k as int),
                    decreases m - k,
                {
                    let c = tok[k];
                    pn.push(c);
                    proof {
                        assert(pn_before + tok@.take(k as int).push(tok@[k as int])
                            =~= pn_before + tok@.take(k + 1 as int));
                    }
                    k = k + 1;
                }
                proof {
                    assert(tok@.take(m as int) =~= tok@);
                }
            }
            i = i + 1;
        }
        proof {
            assert(sp.take(tn as int) =~= sp);
        }
        let country_code = string_from_chars(&cc);
        let area_code = match &ac {
            Option::Some(a) => Option::Some(string_from_chars(a)),
            Option::None => Option::None,
        };
        let phone_number = string_from_chars(&pn);
        PhoneNumber { country_code, area_code, phone_number }
    }
}

// ------------------------------------------------------------------
// Skills.
// ------------------------------------------------------------------

/// Skill names grouped under lowercased category names, in insertion
/// order; category names are unique.
pub struct Skills {
    pub skill_tree: Vec<(String, Vec<String>)>,
}

/// The category name a skill files under: the given category ASCII
/// lowercased, or `"default"` when none is given.
pub open spec fn spec_category(category: Option<String>) -> Seq<char> {
    match category {
        Option::Some(c) => ascii_lower(c@),
        Option::None => "default"@,
    }
}

/// The index of the first category named `cat`, or the tree's length if
/// there is none.
pub open spec fn category_index(tree: Seq<(String, Vec<String>)>, cat: Seq<char>) -> int
    decreases tree.len(),
{
    if tree.len() == 0 {
        0
    } else if tree[0].0@ == cat {
        0
    } else {
        1 + category_index(tree.drop_first(), cat)
    }
}

pub proof fn lemma_category_index(tree: Seq<(String, Vec<String>)>, cat: Seq<char>)
    ensures
        0 <= category_index(tree, cat) <= tree.len(),
        forall|k: int| 0 <= k < category_index(tree, cat) ==> #[trigger] tree[k].0@ != cat,
        category_index(tree, cat) < tree.len() ==> tree[category_index(tree, cat)].0@ == cat,
    decreases tree.len(),
{
    if tree.len() == 0 {
    } else if tree[0].0@ == cat {
    } else {
        lemma_category_index(tree.drop_first(), cat);
        assert forall|k: int| 0 <= k < category_index(tree, cat)
            implies #[trigger] tree[k].0@ != cat by {
            if k > 0 {
                assert(tree.drop_first()[k - 1].0@ != cat);
            }
        }
        if category_index(tree, cat) < tree.len() {
            assert(tree.drop_first()[category_index(tree, cat) - 1]
                == tree[category_index(tree, cat)]);
        }
    }
}

/// How one `add_skill` call changes the tree: the skill is appended to its
/// category's list if the category exists, else a new category is appended
/// at the end holding just this skill.
pub open spec fn skill_added(
    pre: Seq<(String, Vec<String>)>,
    post: Seq<(String, Vec<String>)>,
    cat: Seq<char>,
    skill: String,
) -> bool {
    let ci = category_index(pre, cat);
    if ci < pre.len() {
        &&& post.len() == pre.len()
        &&& forall|k: int| 0 <= k < pre.len() && k != ci ==> post[k] == pre[k]
        &&& post[ci].0 == pre[ci].0
        &&& post[ci].1@ == pre[ci].1@.push(skill)
    } else {
        &&& post.len() == pre.len() + 1
        &&& forall|k: int| 0 <= k < pre.len() ==> post[k] == pre[k]
        &&& post[pre.len() as int].0@ == cat
        &&& post[pre.len() as int].1@ == seq![skill]
    }
}

impl Skills {
    /// Category names are unique.
    pub open spec fn wf(self) -> bool {
        forall|i: int, j: int|
            0 <= i < j < self.skill_tree@.len()
                ==> self.skill_tree@[i].0@ != self.skill_tree@[j].0@
    }

    pub fn new() -> (r: Self)
        ensures
            r.wf(),
            r.skill_tree@.len() == 0,
    {
        Skills { skill_tree: Vec::new() }
    }

    /// Files a skill under its category (ASCII-lowercased; `"default"`
    /// when absent), appending the category if it is new.
    pub fn add_skill(&mut self, skill_name: String, category: Option<String>)
        requires
            old(self).wf(),
        ensures
            final(self).wf(),
            skill_added(
                old(self).skill_tree@,
                final(self).skill_tree@,
                spec_category(category),
                skill_name,
            ),
    {
        let category_str: String = match &category {
            Option::Some(c) => {
                let cv = chars_of(c.as_str());
                let lv = ascii_lower_chars(&cv);
                string_from_chars(&lv)
            },
            Option::None => "default".to_owned(),
        };
        let ghost cat = spec_category(category);
        proof {
            assert(category_str@ == cat);
        }
        let n = self.skill_tree.len();
        let mut idx: usize = 0;
        while idx < n
            invariant_except_break
                idx <= n,
                n == self.skill_tree@.len(),
                category_str@ == cat,
                forall|k: int| 0 <= k < idx ==> #[trigger] self.skill_tree@[k].0@ != cat,
            ensures
                idx <= n,
                n == self.skill_tree@.len(),
                category_str@ == cat,
                forall|k: int| 0 <= k < idx ==> #[trigger] self.skill_tree@[k].0@ != cat,
                idx < n ==> self.skill_tree@[idx as int].0@ == cat,
            decreases n - idx,
        {
            if self.skill_tree[idx].0 == category_str {
                break;
            }
            idx = idx + 1;
        }
        let ghost pre = self.skill_tree@;
        proof {
            lemma_category_index(pre, cat);
            if idx < n {
                assert(category_index(pre, cat) == idx as int) by {
                    if category_index(pre, cat) < idx as int {
                        assert(pre[category_index(pre, cat)].0@ != cat);
                    }
                    if category_index(pre, cat) > idx as int {
                        assert(pre[idx as int].0@ != cat);
                    }
                }
            } else {
                assert(category_index(pre, cat) == n as int) by {
                    if category_index(pre, cat) < n as int {
                        assert(pre[category_index(pre, cat)].0@ != cat);
                    }
                }
            }
        }
        if idx < n {
            self.skill_tree[idx].1.push(skill_name);
        } else {
            let mut list: Vec<String> = Vec::new();
            list.push(skill_name);
            proof {
                assert(list@ =~= seq![skill_name]);
            }
            self.skill_tree.push((category_str, list));
        }
    }
}

// ------------------------------------------------------------------
// Work experience.
// ------------------------------------------------------------------

/// One work-experience entry.
pub struct WorkExperience {
    pub job_title: String,
    pub company_name: String,
    pub job_location: Option<String>,
    pub job_description: Vec<String>,
    pub job_start: Date,
    pub job_end: Option<Date>,
}

/// The content of a work-experience entry, with the description list read
/// as a sequence; two entries with equal views carry the same data.
pub ghost struct WorkExperienceV {
    pub job_title: String,
    pub company_name: String,
    pub job_location: Option<String>,
    pub job_description: Seq<String>,
    pub job_start: Date,
    pub job_end: Option<Date>,
}

pub open spec fn we_view(e: WorkExperience) -> WorkExperienceV {
    WorkExperienceV {
        job_title: e.job_title,
        company_name: e.company_name,
        job_location: e.job_location,
        job_description: e.job_description@,
        job_start: e.job_start,
        job_end: e.job_end,
    }
}

impl WorkExperience {
    pub fn new(
        job_title: String,
        company_name: String,
        job_location: Option<String>,
        job_description: Vec<String>,
        job_start: Date,
        job_end: Option<Date>,
    ) -> (r: Self)
        ensures
            r == (WorkExperience {
                job_title,
                company_name,
                job_location,
                job_description,
                job_start,
                job_end,
            }),
    {
        WorkExperience { job_title, company_name, job_location, job_description, job_start, job_end }
    }

    /// A copy carrying the same content.
    pub fn from(work_experience: &WorkExperience) -> (r: Self)
        ensures
            we_view(r) == we_view(*work_experience),
    {
        WorkExperience {
            job_title: work_experience.job_title.clone(),
            company_name: work_experience.company_name.clone(),
            job_location: clone_opt_string(&work_experience.job_location),
            job_description: clone_string_vec(&work_experience.job_description),
            job_start: work_experience.job_start,
            job_end: work_experience.job_end,
        }
    }

    pub fn get_job_title(&self) -> (r: &String)
        ensures
            *r == self.job_title,
    {
        &self.job_title
    }

    pub fn get_company_name(&self) -> (r: &String)
        ensures
            *r == self.company_name,
    {
        &self.company_name
    }

    pub fn get_job_location(&self) -> (r: &Option<String>)
        ensures
            *r == self.job_location,
    {
        &self.job_location
    }

    pub fn get_job_description(&self) -> (r: &Vec<String>)
        ensures
            *r == self.job_description,
    {
        &self.job_description
    }

    pub fn get_job_start(&self) -> (r: &Date)
        ensures
            *r == self.job_start,
    {
        &self.job_start
    }

    pub fn get_job_end(&self) -> (r: &Option<Date>)
        ensures
            *r == self.job_end,
    {
        &self.job_end
    }
}

// ------------------------------------------------------------------
// Education.
// ------------------------------------------------------------------

/// One education entry. The grade-point average is held in hundredths
/// (a GPA of 3.5 is 350), keeping the record in plain integers.
pub struct Education {
    pub school_name: String,
    pub major: Vec<String>,
    pub location: String,
    pub minor: Vec<String>,
    pub coursework: Vec<String>,
    pub gpa_hundredths: u32,
    pub education_start: Date,
    pub education_end: Option<Date>,
}

/// The content of an education entry, with its lists read as sequences.
pub ghost struct EducationV {
    pub school_name: String,
    pub major: Seq<String>,
    pub location: String,
    pub minor: Seq<String>,
    pub coursework: Seq<String>,
    pub gpa_hundredths: u32,
    pub education_start: Date,
    pub education_end: Option<Date>,
}

pub open spec fn edu_view(e: Education) -> EducationV {
    EducationV {
        school_name: e.school_name,
        major: e.major@,
        location: e.location,
        minor: e.minor@,
        coursework: e.coursework@,
        gpa_hundredths: e.gpa_hundredths,
        education_start: e.education_start,
        education_end: e.education_end,
    }
}

impl Education {
    fn new(
        school_name: String,
        major: Vec<String>,
        location: String,
        minor: Vec<String>,
        coursework: Vec<String>,
        gpa_hundredths: u32,
        education_start: Date,
        education_end: Option<Date>,
    ) -> (r: Self)
        ensures
            r == (Education {
                school_name,
                major,
                location,
                minor,
                coursework,
                gpa_hundredths,
                education_start,
                education_end,
            }),
    {
        Education {
            school_name,
            major,
            location,
            minor,
            coursework,
            gpa_hundredths,
            education_start,
            education_end,
        }
    }

    /// A copy carrying the same content.
    fn from(education: &Education) -> (r: Self)
        ensures
            edu_view(r) == edu_view(*education),
    {
        Education {
            school_name: education.school_name.clone(),
            major: clone_string_vec(&education.major),
            location: education.location.clone(),
            minor: clone_string_vec(&education.minor),
            coursework: clone_string_vec(&education.coursework),
            gpa_hundredths: education.gpa_hundredths,
            education_start: education.education_start,
            education_end: education.education_end,
        }
    }

    pub fn get_school_name(&self) -> (r: &String)
        ensures
            *r == self.school_name,
    {
        &self.school_name
    }

    pub fn get_major(&self) -> (r: &Vec<String>)
        ensures
            *r == self.major,
    {
        &self.major
    }

    pub fn get_minor(&self) -> (r: &Vec<String>)
        ensures
            *r == self.minor,
    {
        &self.minor
    }

    pub fn get_location(&self) -> (r: &String)
        ensures
            *r == self.location,
    {
        &self.location
    }

    pub fn get_coursework(&self) -> (r: &Vec<String>)
        ensures
            *r == self.coursework,
    {
        &self.coursework
    }

    /// The grade-point average in hundredths.
    pub fn get_gpa(&self) -> (r: u32)
        ensures
            r == self.gpa_hundredths,
    {
        self.gpa_hundredths
    }

    pub fn get_education_start(&self) -> (r: &Date)
        ensures
            *r == self.education_start,
    {
        &self.education_start
    }

    pub fn get_education_end(&self) -> (r: &Option<Date>)
        ensures
            *r == self.education_end,
    {
        &self.education_end
    }
}

// ------------------------------------------------------------------
// Projects.
// ------------------------------------------------------------------

/// One project entry.
pub struct Project {
    pub project_name: String,
    pub project_description: Vec<String>,
    pub project_start: Date,
    pub project_end: Option<Date>,
}

/// The content of a project entry.
pub ghost struct ProjectV {
    pub project_name: String,
    pub project_description: Seq<String>,
    pub project_start: Date,
    pub project_end: Option<Date>,
}

pub open spec fn proj_view(e: Project) -> ProjectV {
    ProjectV {
        project_name: e.project_name,
        project_description: e.project_description@,
        project_start: e.project_start,
        project_end: e.project_end,
    }
}

impl Project {
    fn new(
        project_name: String,
        project_description: Vec<String>,
        project_start: Date,
        project_end: Option<Date>,
    ) -> (r: Self)
        ensures
            r == (Project { project_name, project_description, project_start, project_end }),
    {
        Project { project_name, project_description, project_start, project_end }
    }

    /// A copy carrying the same content.
    fn from(project: &Project) -> (r: Self)
        ensures
            proj_view(r) == proj_view(*project),
    {
        Project {
            project_name: project.project_name.clone(),
            project_description: clone_string_vec(&project.project_description),
            project_start: project.project_start,
            project_end: project.project_end,
        }
    }

    pub fn get_project_name(&self) -> (r: &String)
        ensures
            *r == self.project_name,
    {
        &self.project_name
    }

    pub fn get_project_description(&self) -> (r: &Vec<String>)
        ensures
            *r == self.project_description,
    {
        &self.project_description
    }

    pub fn get_project_start(&self) -> (r: &Date)
        ensures
            *r == self.project_start,
    {
        &self.project_start
    }

    pub fn get_project_end(&self) -> (r: &Option<Date>)
        ensures
            *r == self.project_end,
    {
        &self.project_end
    }
}

// ------------------------------------------------------------------
// The sortable unit and the resume view.
// ------------------------------------------------------------------

/// A payload paired with its computed relevance weight: the unit each
/// resume section sorts.
pub struct SortableResumeItem<T> {
    pub sortable: T,
    pub point_value: i64,
}

impl<T> SortableResumeItem<T> {
    pub fn new(sortable: T, point_value: i64) -> (r: Self)
        ensures
            r == (SortableResumeItem { sortable, point_value }),
    {
        SortableResumeItem { sortable, point_value }
    }
}

/// The ordered, derived view of a CV: each section's items wrapped with
/// their weights and sorted ascending by weight.
pub struct Resume {
    pub skills: Vec<(String, Vec<SortableResumeItem<String>>)>,
    pub work_experience: Vec<SortableResumeItem<WorkExperience>>,
    pub education: Vec<SortableResumeItem<Education>>,
    pub projects: Vec<SortableResumeItem<Project>>,
}

impl Resume {
    pub fn new() -> (r: Self)
        ensures
            r.skills@.len() == 0,
            r.work_experience@.len() == 0,
            r.education@.len() == 0,
            r.projects@.len() == 0,
    {
        Resume {
            skills: Vec::new(),
            work_experience: Vec::new(),
            education: Vec::new(),
            projects: Vec::new(),
        }
    }

    pub fn get_skills(&self) -> (r: &Vec<(String, Vec<SortableResumeItem<String>>)>)
        ensures
            *r == self.skills,
    {
        &self.skills
    }

    pub fn get_work_experience(&self) -> (r: &Vec<SortableResumeItem<WorkExperience>>)
        ensures
            *r == self.work_experience,
    {
        &self.work_experience
    }

    pub fn get_education(&self) -> (r: &Vec<SortableResumeItem<Education>>)
        ensures
            *r == self.education,
    {
        &self.education
    }

    pub fn get_projects(&self) -> (r: &Vec<SortableResumeItem<Project>>)
        ensures
            *r == self.projects,
    {
        &self.projects
    }
}

// ------------------------------------------------------------------
// The CV itself.
// ------------------------------------------------------------------

/// The raw, unordered CV: the source of truth that assembly reads and
/// whose description and coursework lists it reorders in place.
pub struct CV {
    pub name: String,
    pub linked_in: Option<String>,
    pub website: Option<String>,
    pub skills: Skills,
    pub work_experience: Vec<WorkExperience>,
    pub education: Vec<Education>,
    pub projects: Vec<Project>,
}

impl CV {
    /// Unique category names in the skills section.
    pub open spec fn wf(self) -> bool {
        self.skills.wf()
    }

    pub fn new() -> (r: Self)
        ensures
            r.wf(),
            r.name@.len() == 0,
            r.linked_in is None,
            r.website is None,
            r.skills.skill_tree@.len() == 0,
            r.work_experience@.len() == 0,
            r.education@.len() == 0,
            r.projects@.len() == 0,
    {
        CV {
            name: String::new(),
            linked_in: Option::None,
            website: Option::None,
            skills: Skills::new(),
            work_experience: Vec::new(),
            education: Vec::new(),
            projects: Vec::new(),
        }
    }

    pub fn add_skill(&mut self, skill_name: String, category: Option<String>)
        requires
            old(self).wf(),
        ensures
            final(self).wf(),
            skill_added(
                old(self).skills.skill_tree@,
                final(self).skills.skill_tree@,
                spec_category(category),
                skill_name,
            ),
            final(self).name == old(self).name,
            final(self).linked_in == old(self).linked_in,
            final(self).website == old(self).website,
            final(self).work_experience == old(self).work_experience,
            final(self).education == old(self).education,
            final(self).projects == old(self).projects,
    {
        self.skills.add_skill(skill_name, category);
    }

    pub fn add_work_experience(
        &mut self,
        job_title: String,
        company_name: String,
        job_location: Option<String>,
        job_description: Vec<String>,
        job_start: Date,
        job_end: Option<Date>,
    )
        ensures
            final(self).work_experience@ == old(self).work_experience@.push(
                (WorkExperience {
                    job_title,
                    company_name,
                    job_location,
                    job_description,
                    job_start,
                    job_end,
                }),
            ),
            final(self).name == old(self).name,
            final(self).linked_in == old(self).linked_in,
            final(self).website == old(self).website,
            final(self).skills == old(self).skills,
            final(self).education == old(self).education,
            final(self).projects == old(self).projects,
    {
        self.work_experience.push(WorkExperience::new(
            job_title,
            company_name,
            job_location,
            job_description,
            job_start,
            job_end,
        ));
    }

    pub fn add_education(
        &mut self,
        school_name: String,
        major: Vec<String>,
        location: String,
        minor: Vec<String>,
        coursework: Vec<String>,
        gpa_hundredths: u32,
        education_start: Date,
        education_end: Option<Date>,
    )
        ensures
            final(self).education@ == old(self).education@.push(
                (Education {
                    school_name,
                    major,
                    location,
                    minor,
                    coursework,
                    gpa_hundredths,
                    education_start,
                    education_end,
                }),
            ),
            final(self).name == old(self).name,
            final(self).linked_in == old(self).linked_in,
            final(self).website == old(self).website,
            final(self).skills == old(self).skills,
            final(self).work_experience == old(self).work_experience,
            final(self).projects == old(self).projects,
    {
        self.education.push(Education::new(
            school_name,
            major,
            location,
            minor,
            coursework,
            gpa_hundredths,
            education_start,
            education_end,
        ));
    }

    pub fn add_project(
        &mut self,
        project_name: String,
        project_description: Vec<String>,
        project_start: Date,
        project_end: Option<Date>,
    )
        ensures
            final(self).projects@ == old(self).projects@.push(
                (Project { project_name, project_description, project_start, project_end }),
            ),
            final(self).name == old(self).name,
            final(self).linked_in == old(self).linked_in,
            final(self).website == old(self).website,
            final(self).skills == old(self).skills,
            final(self).work_experience == old(self).work_experience,
            final(self).education == old(self).education,
    {
        self.projects.push(Project::new(
            project_name,
            project_description,
            project_start,
            project_end,
        ));
    }
}

// ------------------------------------------------------------------
// Keys, measures, and section scores.
// ------------------------------------------------------------------

/// The sorting key of a ranked item: its stored weight.
pub open spec fn point_key<T>() -> spec_fn(SortableResumeItem<T>) -> int {
    |it: SortableResumeItem<T>| it.point_value as int
}

/// The sorting key of a phrase: its weight against the model.
pub open spec fn str_score_key(m: WordCloud) -> spec_fn(String) -> int {
    |s: String| score_spec(m, s@)
}

/// The size measure of a phrase used for overflow bounds: its length plus
/// one.
pub open spec fn len_key() -> spec_fn(String) -> int {
    |s: String| s@.len() as int + 1
}

/// The summed weights of a list of phrases.
pub open spec fn strs_score(m: WordCloud, ss: Seq<String>) -> int {
    sum_keys(ss, str_score_key(m))
}

/// The summed size measure of a list of phrases.
pub open spec fn sum_lens(ss: Seq<String>) -> int {
    sum_keys(ss, len_key())
}

/// A work-experience entry's weight: its description bullets plus its
/// title.
pub open spec fn we_score(m: WordCloud, e: WorkExperience) -> int {
    strs_score(m, e.job_description@) + score_spec(m, e.job_title@)
}

/// An education entry's weight: coursework, majors and minors; the school
/// name does not count.
pub open spec fn edu_score(m: WordCloud, e: Education) -> int {
    strs_score(m, e.coursework@) + strs_score(m, e.major@) + strs_score(m, e.minor@)
}

/// A project entry's weight: its description bullets; the name does not
/// count.
pub open spec fn proj_score(m: WordCloud, e: Project) -> int {
    strs_score(m, e.project_description@)
}

/// Machine-size bounds under which every weight the assembler computes
/// fits comfortably in an `i64`.
pub open spec fn we_fits(e: WorkExperience) -> bool {
    e.job_title@.len() + 1 + sum_lens(e.job_description@) <= MAX_TEXT_LEN
}

pub open spec fn edu_fits(e: Education) -> bool {
    sum_lens(e.coursework@) + sum_lens(e.major@) + sum_lens(e.minor@) <= MAX_TEXT_LEN
}

pub open spec fn proj_fits(e: Project) -> bool {
    sum_lens(e.project_description@) <= MAX_TEXT_LEN
}

/// The machine-size bound on a whole CV: each skill category's names and
/// each entry's combined text stay under the cap.
pub open spec fn cv_fits(cv: CV) -> bool {
    &&& forall|i: int|
        0 <= i < cv.skills.skill_tree@.len()
            ==> sum_lens(#[trigger] cv.skills.skill_tree@[i].1@) <= MAX_TEXT_LEN
    &&& forall|i: int|
        0 <= i < cv.work_experience@.len() ==> we_fits(#[trigger] cv.work_experience@[i])
    &&& forall|i: int|
        0 <= i < cv.education@.len() ==> edu_fits(#[trigger] cv.education@[i])
    &&& forall|i: int|
        0 <= i < cv.projects@.len() ==> proj_fits(#[trigger] cv.projects@[i])
}

// ------------------------------------------------------------------
// Sorting ranked items and phrase lists.
// ------------------------------------------------------------------

/// Stable-sorts ranked items ascending by their stored weight.
fn sort_items<T>(v: Vec<SortableResumeItem<T>>) -> (r: Vec<SortableResumeItem<T>>)
    ensures
        r@ == sort_by_key(v@, point_key::<T>()),
{
    let ghost key = point_key::<T>();
    let ghost orig = v@;
    let mut vv = v;
    let mut out: Vec<SortableResumeItem<T>> = Vec::new();
    let ghost mut i: int = 0;
    proof {
        assert(orig.take(0) =~= Seq::<SortableResumeItem<T>>::empty());
        assert(orig.skip(0) =~= orig);
    }
    while vv.len() > 0
        invariant
            0 <= i <= orig.len(),
            vv@ == orig.skip(i),
            out@ == sort_by_key(orig.take(i), key),
            sorted_by(out@, key),
            key == point_key::<T>(),
        decreases vv@.len(),
    {
        proof {
            assert(orig.skip(i)[0] == orig[i]);
            assert(orig.skip(i).remove(0) =~= orig.skip(i + 1));
        }
        let x = vv.remove(0);
        let ks = x.point_value;
        let ghost pre_out = out@;
        let on = out.len();
        let mut j: usize = 0;
        while j < on
            invariant_except_break
                j <= on,
                on == out@.len(),
                out@ == pre_out,
                forall|k: int| 0 <= k < j ==> #[trigger] out@[k].point_value <= ks,
            ensures
                j <= on,
                on == out@.len(),
                out@ == pre_out,
                forall|k: int| 0 <= k < j ==> #[trigger] out@[k].point_value <= ks,
                j < on ==> out@[j as int].point_value > ks,
            decreases on - j,
        {
            if out[j].point_value > ks {
                break;
            }
            j = j + 1;
        }
        proof {
            assert forall|k: int| j <= k < out@.len() implies key(out@[k]) > key(x) by {
                if k > j {
                    assert(key(out@[j as int]) <= key(out@[k]));
                }
            }
            lemma_insert_by_at(out@, x, key, j as int);
            lemma_insert_by_sorted(out@, x, key);
            assert(orig.take(i + 1).drop_last() =~= orig.take(i));
            assert(orig.take(i + 1).last() == orig[i]);
        }
        out.insert(j, x);
        proof {
            i = i + 1;
        }
    }
    proof {
        assert(i == orig.len());
        assert(orig.take(orig.len() as int) =~= orig);
    }
    out
}

/// Stable-sorts phrases ascending by their weight against the model.
fn sort_strings_by_score(wc: &WordCloud, v: Vec<String>) -> (r: Vec<String>)
    requires
        wc.wf(),
        wc.total_weight <= MAX_TEXT_LEN,
        forall|k: int| 0 <= k < v@.len() ==> #[trigger] v@[k]@.len() <= MAX_TEXT_LEN,
    ensures
        r@ == sort_by_key(v@, str_score_key(*wc)),
{
    let ghost key = str_score_key(*wc);
    let ghost orig = v@;
    let mut vv = v;
    let mut out: Vec<String> = Vec::new();
    let ghost mut i: int = 0;
    proof {
        assert(orig.take(0) =~= Seq::<String>::empty());
        assert(orig.skip(0) =~= orig);
    }
    while vv.len() > 0
        invariant
            0 <= i <= orig.len(),
            vv@ == orig.skip(i),
            out@ == sort_by_key(orig.take(i), key),
            sorted_by(out@, key),
            key == str_score_key(*wc),
            wc.wf(),
            wc.total_weight <= MAX_TEXT_LEN,
            forall|k: int| 0 <= k < orig.len() ==> #[trigger] orig[k]@.len() <= MAX_TEXT_LEN,
            forall|k: int| 0 <= k < out@.len() ==> #[trigger] out@[k]@.len() <= MAX_TEXT_LEN,
        decreases vv@.len(),
    {
        proof {
            assert(orig.skip(i)[0] == orig[i]);
            assert(orig.skip(i).remove(0) =~= orig.skip(i + 1));
        }
        let x = vv.remove(0);
        let ks = wc.get_word_score(x.clone()).get_word_weight();
        let ghost pre_out = out@;
        let on = out.len();
        let mut j: usize = 0;
        while j < on
            invariant_except_break
                j <= on,
                on == out@.len(),
                out@ == pre_out,
                wc.wf(),
                wc.total_weight <= MAX_TEXT_LEN,
                ks as int == score_spec(*wc, x@),
                forall|k: int| 0 <= k < out@.len() ==> #[trigger] out@[k]@.len() <= MAX_TEXT_LEN,
                forall|k: int| 0 <= k < j ==> score_spec(*wc, #[trigger] out@[k]@) <= ks as int,
            ensures
                j <= on,
                on == out@.len(),
                out@ == pre_out,
                forall|k: int| 0 <= k < j ==> score_spec(*wc, #[trigger] out@[k]@) <= ks as int,
                j < on ==> score_spec(*wc, out@[j as int]@) > ks as int,
            decreases on - j,
        {
            let kj = wc.get_word_score(out[j].clone()).get_word_weight();
            if kj > ks {
                break;
            }
            j = j + 1;
        }
        proof {
            assert forall|k: int| 0 <= k < j implies key(out@[k]) <= key(x) by {
                assert(score_spec(*wc, out@[k]@) <= ks as int);
            }
            assert forall|k: int| j <= k < out@.len() implies key(out@[k]) > key(x) by {
                if k > j {
                    assert(key(out@[j as int]) <= key(out@[k]));
                }
            }
            lemma_insert_by_at(out@, x, key, j as int);
            lemma_insert_by_sorted(out@, x, key);
            assert(orig.take(i + 1).drop_last() =~= orig.take(i));
            assert(orig.take(i + 1).last() == orig[i]);
        }
        out.insert(j, x);
        proof {
            i = i + 1;
        }
    }
    proof {
        assert(i == orig.len());
        assert(orig.take(orig.len() as int) =~= orig);
    }
    out
}

/// Sums the weights of a list of phrases against the model.
fn strings_score_sum(wc: &WordCloud, v: &Vec<String>) -> (r: i64)
    requires
        wc.wf(),
        wc.total_weight <= MAX_TEXT_LEN,
        sum_lens(v@) <= MAX_TEXT_LEN,
    ensures
        r as int == strs_score(*wc, v@),
        0 <= r as int <= sum_lens(v@) * wc.spec_total(),
{
    let ghost skey = str_score_key(*wc);
    let ghost lkey = len_key();
    let ghost tw = wc.spec_total();
    proof {
        assert forall|k: int| 0 <= k < v@.len() implies #[trigger] lkey(v@[k]) >= 0 by {}
        lemma_sum_keys_nonneg(v@, lkey);
        assert(v@.take(0) =~= Seq::<String>::empty());
    }
    let n = v.len();
    let mut acc: i64 = 0;
    let mut k: usize = 0;
    while k < n
        invariant
            k <= n,
            n == v@.len(),
            wc.wf(),
            wc.total_weight <= MAX_TEXT_LEN,
            tw == wc.spec_total(),
            sum_lens(v@) <= MAX_TEXT_LEN,
            forall|t: int| 0 <= t < v@.len() ==> #[trigger] len_key()(v@[t]) >= 0,
            acc as int == sum_keys(v@.take(k as int), str_score_key(*wc)),
            0 <= acc as int <= sum_keys(v@.take(k as int), len_key()) * tw,
        decreases n - k,
    {
        proof {
            lemma_sum_keys_element(v@, len_key(), k as int);
            lemma_sum_keys_take(v@, len_key(), k as int);
            lemma_sum_keys_take(v@, len_key(), k + 1 as int);
            lemma_score_spec_bound(*wc, v@[k as int]@);
        }
        let sc = wc.get_word_score(v[k].clone()).get_word_weight();
        proof {
            let pre = v@.take(k as int);
            let post = v@.take(k + 1 as int);
            assert(post.drop_last() =~= pre);
            assert(post.last() == v@[k as int]);
            assert(sum_keys(post, str_score_key(*wc))
                == sum_keys(pre, str_score_key(*wc)) + score_spec(*wc, v@[k as int]@));
            assert(sum_keys(post, len_key())
                == sum_keys(pre, len_key()) + (v@[k as int]@.len() + 1));
            let a = sum_keys(pre, len_key());
            let l = v@[k as int]@.len() + 1;
            assert forall|t: int| 0 <= t < pre.len()
                implies #[trigger] len_key()(pre[t]) >= 0 by {
                assert(pre[t] == v@[t]);
            }
            lemma_sum_keys_nonneg(pre, len_key());
            assert(acc as int + sc as int <= a * tw + l * tw) by (nonlinear_arith)
                requires
                    acc as int <= a * tw,
                    sc as int <= l * tw,
            ;
            assert(a * tw + l * tw == (a + l) * tw) by (nonlinear_arith);
            assert((a + l) * tw <= MAX_TEXT_LEN * (MAX_TEXT_LEN as int)) by (nonlinear_arith)
                requires
                    0 <= a + l <= MAX_TEXT_LEN,
                    0 <= tw <= MAX_TEXT_LEN,
            ;
        }
        acc = acc + sc;
        k = k + 1;
    }
    proof {
        assert(v@.take(n as int) =~= v@);
    }
    acc
}

// ------------------------------------------------------------------
// What assembly produces, section by section.
// ------------------------------------------------------------------

/// The sorting key of a (content, weight) pair: the weight.
pub open spec fn pair_key<V>() -> spec_fn((V, int)) -> int {
    |p: (V, int)| p.1
}

/// A ranked skill item read as (name, weight).
pub open spec fn str_item_view() -> spec_fn(SortableResumeItem<String>) -> (String, int) {
    |it: SortableResumeItem<String>| (it.sortable, it.point_value as int)
}

/// A ranked work-experience item read as (content, weight).
pub open spec fn we_item_view() -> spec_fn(SortableResumeItem<WorkExperience>) -> (
    WorkExperienceV,
    int,
) {
    |it: SortableResumeItem<WorkExperience>| (we_view(it.sortable), it.point_value as int)
}

/// A ranked education item read as (content, weight).
pub open spec fn edu_item_view() -> spec_fn(SortableResumeItem<Education>) -> (EducationV, int) {
    |it: SortableResumeItem<Education>| (edu_view(it.sortable), it.point_value as int)
}

/// A ranked project item read as (content, weight).
pub open spec fn proj_item_view() -> spec_fn(SortableResumeItem<Project>) -> (ProjectV, int) {
    |it: SortableResumeItem<Project>| (proj_view(it.sortable), it.point_value as int)
}

/// Each phrase paired with its weight, in input order.
pub open spec fn ranked_phrases(m: WordCloud, names: Seq<String>) -> Seq<(String, int)> {
    Seq::new(names.len(), |i: int| (names[i], score_spec(m, names[i]@)))
}

/// Each work-experience entry's content paired with its weight.
pub open spec fn ranked_work(m: WordCloud, es: Seq<WorkExperience>) -> Seq<(WorkExperienceV, int)> {
    Seq::new(es.len(), |i: int| (we_view(es[i]), we_score(m, es[i])))
}

/// Each education entry's content paired with its weight.
pub open spec fn ranked_education(m: WordCloud, es: Seq<Education>) -> Seq<(EducationV, int)> {
    Seq::new(es.len(), |i: int| (edu_view(es[i]), edu_score(m, es[i])))
}

/// Each project entry's content paired with its weight.
pub open spec fn ranked_projects(m: WordCloud, es: Seq<Project>) -> Seq<(ProjectV, int)> {
    Seq::new(es.len(), |i: int| (proj_view(es[i]), proj_score(m, es[i])))
}

/// How assembly rewrites one work-experience entry in place: only the
/// description list changes, stable-sorted ascending by weight.
pub open spec fn we_resorted(m: WordCloud, pre: WorkExperience, post: WorkExperience) -> bool {
    &&& post.job_title == pre.job_title
    &&& post.company_name == pre.company_name
    &&& post.job_location == pre.job_location
    &&& post.job_start == pre.job_start
    &&& post.job_end == pre.job_end
    &&& post.job_description@ == sort_by_key(pre.job_description@, str_score_key(m))
}

/// How assembly rewrites one education entry in place: only the coursework
/// list changes, stable-sorted ascending by weight; majors and minors keep
/// their order.
pub open spec fn edu_resorted(m: WordCloud, pre: Education, post: Education) -> bool {
    &&& post.school_name == pre.school_name
    &&& post.major == pre.major
    &&& post.location == pre.location
    &&& post.minor == pre.minor
    &&& post.gpa_hundredths == pre.gpa_hundredths
    &&& post.education_start == pre.education_start
    &&& post.education_end == pre.education_end
    &&& post.coursework@ == sort_by_key(pre.coursework@, str_score_key(m))
}

/// How assembly rewrites one project entry in place: only the description
/// list changes, stable-sorted ascending by weight.
pub open spec fn proj_resorted(m: WordCloud, pre: Project, post: Project) -> bool {
    &&& post.project_name == pre.project_name
    &&& post.project_start == pre.project_start
    &&& post.project_end == pre.project_end
    &&& post.project_description@ == sort_by_key(pre.project_description@, str_score_key(m))
}

impl CV {
    /// For every category in turn: each skill name is paired with its
    /// weight and the category's items are stable-sorted ascending by
    /// weight. Categories keep their stored order.
    fn create_sorted_skill_list(&self, word_cloud: &WordCloud) -> (r: Vec<
        (String, Vec<SortableResumeItem<String>>),
    >)
        requires
            word_cloud.wf(),
            word_cloud.total_weight <= MAX_TEXT_LEN,
            forall|i: int|
                0 <= i < self.skills.skill_tree@.len()
                    ==> sum_lens(#[trigger] self.skills.skill_tree@[i].1@) <= MAX_TEXT_LEN,
        ensures
            r@.len() == self.skills.skill_tree@.len(),
            forall|i: int|
                0 <= i < r@.len() ==> (#[trigger] r@[i]).0 == self.skills.skill_tree@[i].0
                    && r@[i].1@.map_values(str_item_view()) == sort_by_key(
                    ranked_phrases(*word_cloud, self.skills.skill_tree@[i].1@),
                    pair_key::<String>(),
                ),
    {
        let ghost m = *word_cloud;
        let tn = self.skills.skill_tree.len();
        let mut output: Vec<(String, Vec<SortableResumeItem<String>>)> = Vec::new();
        let mut i: usize = 0;
        while i < tn
            invariant
                i <= tn,
                tn == self.skills.skill_tree@.len(),
                m == *word_cloud,
                word_cloud.wf(),
                word_cloud.total_weight <= MAX_TEXT_LEN,
                forall|t: int|
                    0 <= t < tn
                        ==> sum_lens(#[trigger] self.skills.skill_tree@[t].1@) <= MAX_TEXT_LEN,
                output@.len() == i,
                forall|t: int|
                    0 <= t < i ==> (#[trigger] output@[t]).0 == self.skills.skill_tree@[t].0
                        && output@[t].1@.map_values(str_item_view()) == sort_by_key(
                        ranked_phrases(m, self.skills.skill_tree@[t].1@),
                        pair_key::<String>(),
                    ),
            decreases tn - i,
        {
            let names = &self.skills.skill_tree[i].1;
            let kn = names.len();
            let mut ranked: Vec<SortableResumeItem<String>> = Vec::new();
            let mut k: usize = 0;
            proof {
                assert forall|t: int| 0 <= t < names@.len()
                    implies #[trigger] len_key()(names@[t]) >= 0 by {}
            }
            while k < kn
                invariant
                    k <= kn,
                    kn == names@.len(),
                    names@ == self.skills.skill_tree@[i as int].1@,
                    i < tn,
                    tn == self.skills.skill_tree@.len(),
                    m == *word_cloud,
                    word_cloud.wf(),
                    word_cloud.total_weight <= MAX_TEXT_LEN,
                    sum_lens(names@) <= MAX_TEXT_LEN,
                    forall|t: int| 0 <= t < names@.len() ==> #[trigger] len_key()(names@[t]) >= 0,
                    ranked@.len() == k,
                    forall|t: int|
                        0 <= t < k ==> (#[trigger] ranked@[t]).sortable == names@[t]
                            && ranked@[t].point_value as int == score_spec(m, names@[t]@),
                decreases kn - k,
            {
                proof {
                    lemma_sum_keys_element(names@, len_key(), k as int);
                }
                let sc = word_cloud.get_word_score(names[k].clone()).get_word_weight();
                let item = SortableResumeItem::new(names[k].clone(), sc);
                ranked.push(item);
                k = k + 1;
            }
            let ghost rseq = ranked@;
            let sorted = sort_items(ranked);
            proof {
                assert(rseq.map_values(str_item_view())
                    =~= ranked_phrases(m, self.skills.skill_tree@[i as int].1@));
                assert forall|y: SortableResumeItem<String>|
                    #[trigger] pair_key::<String>()(str_item_view()(y))
                        == point_key::<String>()(y) by {}
                lemma_sort_by_key_map(
                    rseq,
                    str_item_view(),
                    point_key::<String>(),
                    pair_key::<String>(),
                );
            }
            let cat = self.skills.skill_tree[i].0.clone();
            output.push((cat, sorted));
            i = i + 1;
        }
        output
    }

    /// For every work-experience entry: its description bullets are
    /// stable-sorted in place ascending by weight, the entry's weight is
    /// the sum of its bullet weights plus its title weight, and the
    /// entries are returned wrapped and stable-sorted ascending by that
    /// weight.
    fn create_sorted_work_experience_list(&mut self, word_cloud: &WordCloud) -> (r: Vec<
        SortableResumeItem<WorkExperience>,
    >)
        requires
            word_cloud.wf(),
            word_cloud.total_weight <= MAX_TEXT_LEN,
            forall|i: int|
                0 <= i < old(self).work_experience@.len()
                    ==> we_fits(#[trigger] old(self).work_experience@[i]),
        ensures
            final(self).work_experience@.len() == old(self).work_experience@.len(),
            forall|i: int|
                0 <= i < old(self).work_experience@.len() ==> we_resorted(
                    *word_cloud,
                    old(self).work_experience@[i],
                    #[trigger] final(self).work_experience@[i],
                ),
            r@.map_values(we_item_view()) == sort_by_key(
                ranked_work(*word_cloud, final(self).work_experience@),
                pair_key::<WorkExperienceV>(),
            ),
            final(self).name == old(self).name,
            final(self).linked_in == old(self).linked_in,
            final(self).website == old(self).website,
            final(self).skills == old(self).skills,
            final(self).education == old(self).education,
            final(self).projects == old(self).projects,
    {
        let ghost m = *word_cloud;
        let ghost init = *self;
        let ghost orig = self.work_experience@;
        let n = self.work_experience.len();
        let mut ranked: Vec<SortableResumeItem<WorkExperience>> = Vec::new();
        let mut i: usize = 0;
        while i < n
            invariant
                i <= n,
                n == self.work_experience@.len(),
                orig.len() == n,
                orig == init.work_experience@,
                m == *word_cloud,
                word_cloud.wf(),
                word_cloud.total_weight <= MAX_TEXT_LEN,
                forall|t: int| 0 <= t < n ==> we_fits(#[trigger] orig[t]),
                forall|t: int| i <= t < n ==> #[trigger] self.work_experience@[t] == orig[t],
                forall|t: int|
                    0 <= t < i ==> we_resorted(m, orig[t], #[trigger] self.work_experience@[t]),
                ranked@.len() == i,
                forall|t: int|
                    0 <= t < i ==> we_view((#[trigger] ranked@[t]).sortable)
                        == we_view(self.work_experience@[t])
                        && ranked@[t].point_value as int == we_score(m, self.work_experience@[t]),
                self.name == init.name,
                self.linked_in == init.linked_in,
                self.website == init.website,
                self.skills == init.skills,
                self.education == init.education,
                self.projects == init.projects,
            decreases n - i,
        {
            let ghost entry = self.work_experience@[i as int];
            let ghost tw = m.spec_total();
            proof {
                assert(we_fits(entry));
                assert forall|t: int| 0 <= t < entry.job_description@.len()
                    implies #[trigger] len_key()(entry.job_description@[t]) >= 0 by {}
                lemma_sum_keys_nonneg(entry.job_description@, len_key());
            }
            let title_sc = word_cloud
                .get_word_score(self.work_experience[i].job_title.clone())
                .get_word_weight();
            let descs = clone_string_vec(&self.work_experience[i].job_description);
            let dsum = strings_score_sum(word_cloud, &descs);
            proof {
                assert forall|t: int| 0 <= t < descs@.len()
                    implies #[trigger] descs@[t]@.len() <= MAX_TEXT_LEN by {
                    lemma_sum_keys_element(descs@, len_key(), t);
                }
            }
            let sorted = sort_strings_by_score(word_cloud, descs);
            proof {
                let sl = sum_lens(entry.job_description@);
                let tl = entry.job_title@.len() as int;
                assert(dsum as int + title_sc as int <= sl * tw + (tl + 1) * tw)
                    by (nonlinear_arith)
                    requires
                        dsum as int <= sl * tw,
                        title_sc as int <= tl * tw + tw,
                ;
                assert(sl * tw + (tl + 1) * tw == (sl + tl + 1) * tw) by (nonlinear_arith);
                assert((sl + tl + 1) * tw <= MAX_TEXT_LEN * (MAX_TEXT_LEN as int))
                    by (nonlinear_arith)
                    requires
                        0 <= sl + tl + 1 <= MAX_TEXT_LEN,
                        0 <= tw <= MAX_TEXT_LEN,
                ;
            }
            let wsum = dsum + title_sc;
            let new_entry = WorkExperience {
                job_title: self.work_experience[i].job_title.clone(),
                company_name: self.work_experience[i].company_name.clone(),
                job_location: clone_opt_string(&self.work_experience[i].job_location),
                job_description: sorted,
                job_start: self.work_experience[i].job_start,
                job_end: self.work_experience[i].job_end,
            };
            let out_entry = WorkExperience::from(&new_entry);
            self.work_experience[i] = new_entry;
            let item = SortableResumeItem::new(out_entry, wsum);
            ranked.push(item);
            proof {
                lemma_sort_by_key_sum(
                    entry.job_description@,
                    str_score_key(m),
                    str_score_key(m),
                );
                assert(we_resorted(m, orig[i as int], self.work_experience@[i as int]));
                assert(we_score(m, self.work_experience@[i as int]) == wsum as int);
            }
            i = i + 1;
        }
        let ghost rseq = ranked@;
        let out = sort_items(ranked);
        proof {
            assert(rseq.map_values(we_item_view())
                =~= ranked_work(m, self.work_experience@));
            assert forall|y: SortableResumeItem<WorkExperience>|
                #[trigger] pair_key::<WorkExperienceV>()(we_item_view()(y))
                    == point_key::<WorkExperience>()(y) by {}
            lemma_sort_by_key_map(
                rseq,
                we_item_view(),
                point_key::<WorkExperience>(),
                pair_key::<WorkExperienceV>(),
            );
        }
        out
    }

    /// For every education entry: its coursework is stable-sorted in
    /// place ascending by weight, the entry's weight is the sum of its
    /// coursework, major and minor weights (the school name does not
    /// count), and the entries are returned wrapped and stable-sorted
    /// ascending by that weight.
    fn create_sorted_education_list(&mut self, word_cloud: &WordCloud) -> (r: Vec<
        SortableResumeItem<Education>,
    >)
        requires
            word_cloud.wf(),
            word_cloud.total_weight <= MAX_TEXT_LEN,
            forall|i: int|
                0 <= i < old(self).education@.len()
                    ==> edu_fits(#[trigger] old(self).education@[i]),
        ensures
            final(self).education@.len() == old(self).education@.len(),
            forall|i: int|
                0 <= i < old(self).education@.len() ==> edu_resorted(
                    *word_cloud,
                    old(self).education@[i],
                    #[trigger] final(self).education@[i],
                ),
            r@.map_values(edu_item_view()) == sort_by_key(
                ranked_education(*word_cloud, final(self).education@),
                pair_key::<EducationV>(),
            ),
            final(self).name == old(self).name,
            final(self).linked_in == old(self).linked_in,
            final(self).website == old(self).website,
            final(self).skills == old(self).skills,
            final(self).work_experience == old(self).work_experience,
            final(self).projects == old(self).projects,
    {
        let ghost m = *word_cloud;
        let ghost init = *self;
        let ghost orig = self.education@;
        let n = self.education.len();
        let mut ranked: Vec<SortableResumeItem<Education>> = Vec::new();
        let mut i: usize = 0;
        while i < n
            invariant
                i <= n,
                n == self.education@.len(),
                orig.len() == n,
                orig == init.education@,
                m == *word_cloud,
                word_cloud.wf(),
                word_cloud.total_weight <= MAX_TEXT_LEN,
                forall|t: int| 0 <= t < n ==> edu_fits(#[trigger] orig[t]),
                forall|t: int| i <= t < n ==> #[trigger] self.education@[t] == orig[t],
                forall|t: int|
                    0 <= t < i ==> edu_resorted(m, orig[t], #[trigger] self.education@[t]),
                ranked@.len() == i,
                forall|t: int|
                    0 <= t < i ==> edu_view((#[trigger] ranked@[t]).sortable)
                        == edu_view(self.education@[t])
                        && ranked@[t].point_value as int == edu_score(m, self.education@[t]),
                self.name == init.name,
                self.linked_in == init.linked_in,
                self.website == init.website,
                self.skills == init.skills,
                self.work_experience == init.work_experience,
                self.projects == init.projects,
            decreases n - i,
        {
            let ghost entry = self.education@[i as int];
            let ghost tw = m.spec_total();
            proof {
                assert(edu_fits(entry));
                assert forall|t: int| 0 <= t < entry.coursework@.len()
                    implies #[trigger] len_key()(entry.coursework@[t]) >= 0 by {}
                assert forall|t: int| 0 <= t < entry.major@.len()
                    implies #[trigger] len_key()(entry.major@[t]) >= 0 by {}
                assert forall|t: int| 0 <= t < entry.minor@.len()
                    implies #[trigger] len_key()(entry.minor@[t]) >= 0 by {}
                lemma_sum_keys_nonneg(entry.coursework@, len_key());
                lemma_sum_keys_nonneg(entry.major@, len_key());
                lemma_sum_keys_nonneg(entry.minor@, len_key());
            }
            let csum = strings_score_sum(word_cloud, &self.education[i].coursework);
            let msum = strings_score_sum(word_cloud, &self.education[i].major);
            let nsum = strings_score_sum(word_cloud, &self.education[i].minor);
            proof {
                let a = sum_lens(entry.coursework@);
                let b = sum_lens(entry.major@);
                let c = sum_lens(entry.minor@);
                assert(csum as int + msum as int + nsum as int <= a * tw + b * tw + c * tw)
                    by (nonlinear_arith)
                    requires
                        csum as int <= a * tw,
                        msum as int <= b * tw,
                        nsum as int <= c * tw,
                ;
                assert(a * tw + b * tw + c * tw == (a + b + c) * tw) by (nonlinear_arith);
                assert((a + b + c) * tw <= MAX_TEXT_LEN * (MAX_TEXT_LEN as int))
                    by (nonlinear_arith)
                    requires
                        0 <= a + b + c <= MAX_TEXT_LEN,
                        0 <= tw <= MAX_TEXT_LEN,
                ;
            }
            let esum = csum + msum + nsum;
            let courses = clone_string_vec(&self.education[i].coursework);
            proof {
                assert forall|t: int| 0 <= t < courses@.len()
                    implies #[trigger] courses@[t]@.len() <= MAX_TEXT_LEN by {
                    lemma_sum_keys_element(courses@, len_key(), t);
                }
            }
            let sorted = sort_strings_by_score(word_cloud, courses);
            let out_entry = Education {
                school_name: self.education[i].school_name.clone(),
                major: clone_string_vec(&self.education[i].major),
                location: self.education[i].location.clone(),
                minor: clone_string_vec(&self.education[i].minor),
                coursework: clone_string_vec(&sorted),
                gpa_hundredths: self.education[i].gpa_hundredths,
                education_start: self.education[i].education_start,
                education_end: self.education[i].education_end,
            };
            self.education[i].coursework = sorted;
            let item = SortableResumeItem::new(out_entry, esum);
            ranked.push(item);
            proof {
                lemma_sort_by_key_sum(entry.coursework@, str_score_key(m), str_score_key(m));
                assert(edu_score(m, self.education@[i as int]) == esum as int);
            }
            i = i + 1;
        }
        let ghost rseq = ranked@;
        let out = sort_items(ranked);
        proof {
            assert(rseq.map_values(edu_item_view()) =~= ranked_education(m, self.education@));
            assert forall|y: SortableResumeItem<Education>|
                #[trigger] pair_key::<EducationV>()(edu_item_view()(y))
                    == point_key::<Education>()(y) by {}
            lemma_sort_by_key_map(
                rseq,
                edu_item_view(),
                point_key::<Education>(),
                pair_key::<EducationV>(),
            );
        }
        out
    }

    /// For every project: its description bullets are stable-sorted in
    /// place ascending by weight, the project's weight is the sum of its
    /// bullet weights (the name does not count), and the projects are
    /// returned wrapped and stable-sorted ascending by that weight.
    fn create_sorted_project_list(&mut self, word_cloud: &WordCloud) -> (r: Vec<
        SortableResumeItem<Project>,
    >)
        requires
            word_cloud.wf(),
            word_cloud.total_weight <= MAX_TEXT_LEN,
            forall|i: int|
                0 <= i < old(self).projects@.len()
                    ==> proj_fits(#[trigger] old(self).projects@[i]),
        ensures
            final(self).projects@.len() == old(self).projects@.len(),
            forall|i: int|
                0 <= i < old(self).projects@.len() ==> proj_resorted(
                    *word_cloud,
                    old(self).projects@[i],
                    #[trigger] final(self).projects@[i],
                ),
            r@.map_values(proj_item_view()) == sort_by_key(
                ranked_projects(*word_cloud, final(self).projects@),
                pair_key::<ProjectV>(),
            ),
            final(self).name == old(self).name,
            final(self).linked_in == old(self).linked_in,
            final(self).website == old(self).website,
            final(self).skills == old(self).skills,
            final(self).work_experience == old(self).work_experience,
            final(self).education == old(self).education,
    {
        let ghost m = *word_cloud;
        let ghost init = *self;
        let ghost orig = self.projects@;
        let n = self.projects.len();
        let mut ranked: Vec<SortableResumeItem<Project>> = Vec::new();
        let mut i: usize = 0;
        while i < n
            invariant
                i <= n,
                n == self.projects@.len(),
                orig.len() == n,
                orig == init.projects@,
                m == *word_cloud,
                word_cloud.wf(),
                word_cloud.total_weight <= MAX_TEXT_LEN,
                forall|t: int| 0 <= t < n ==> proj_fits(#[trigger] orig[t]),
                forall|t: int| i <= t < n ==> #[trigger] self.projects@[t] == orig[t],
                forall|t: int|
                    0 <= t < i ==> proj_resorted(m, orig[t], #[trigger] self.projects@[t]),
                ranked@.len() == i,
                forall|t: int|
                    0 <= t < i ==> proj_view((#[trigger] ranked@[t]).sortable)
                        == proj_view(self.projects@[t])
                        && ranked@[t].point_value as int == proj_score(m, self.projects@[t]),
                self.name == init.name,
                self.linked_in == init.linked_in,
                self.website == init.website,
                self.skills == init.skills,
                self.work_experience == init.work_experience,
                self.education == init.education,
            decreases n - i,
        {
            let ghost entry = self.projects@[i as int];
            proof {
                assert(proj_fits(entry));
                assert forall|t: int| 0 <= t < entry.project_description@.len()
                    implies #[trigger] len_key()(entry.project_description@[t]) >= 0 by {}
                lemma_sum_keys_nonneg(entry.project_description@, len_key());
            }
            let psum = strings_score_sum(word_cloud, &self.projects[i].project_description);
            proof {
                let tw = m.spec_total();
                let a = sum_lens(entry.project_description@);
                assert(a * tw <= MAX_TEXT_LEN * (MAX_TEXT_LEN as int)) by (nonlinear_arith)
                    requires
                        0 <= a <= MAX_TEXT_LEN,
                        0 <= tw <= MAX_TEXT_LEN,
                ;
            }
            let descs = clone_string_vec(&self.projects[i].project_description);
            proof {
                assert forall|t: int| 0 <= t < descs@.len()
                    implies #[trigger] descs@[t]@.len() <= MAX_TEXT_LEN by {
                    lemma_sum_keys_element(descs@, len_key(), t);
                }
            }
            let sorted = sort_strings_by_score(word_cloud, descs);
            let new_entry = Project {
                project_name: self.projects[i].project_name.clone(),
                project_description: sorted,
                project_start: self.projects[i].project_start,
                project_end: self.projects[i].project_end,
            };
            let out_entry = Project::from(&new_entry);
            self.projects[i] = new_entry;
            let item = SortableResumeItem::new(out_entry, psum);
            ranked.push(item);
            proof {
                lemma_sort_by_key_sum(
                    entry.project_description@,
                    str_score_key(m),
                    str_score_key(m),
                );
                assert(proj_score(m, self.projects@[i as int]) == psum as int);
            }
            i = i + 1;
        }
        let ghost rseq = ranked@;
        let out = sort_items(ranked);
        proof {
            assert(rseq.map_values(proj_item_view()) =~= ranked_projects(m, self.projects@));
            assert forall|y: SortableResumeItem<Project>|
                #[trigger] pair_key::<ProjectV>()(proj_item_view()(y))
                    == point_key::<Project>()(y) by {}
            lemma_sort_by_key_map(
                rseq,
                proj_item_view(),
                point_key::<Project>(),
                pair_key::<ProjectV>(),
            );
        }
        out
    }

    /// Assembles the ordered resume view: every section's items are
    /// paired with their computed weights and stable-sorted ascending,
    /// and the CV's description and coursework lists are reordered in
    /// place as a side effect. A model of total weight zero leaves every
    /// weight 0 and every sort the identity.
    pub fn generate_resume(&mut self, word_cloud: &WordCloud) -> (r: Resume)
        requires
            word_cloud.wf(),
            word_cloud.total_weight <= MAX_TEXT_LEN,
            cv_fits(*old(self)),
        ensures
            r.skills@.len() == old(self).skills.skill_tree@.len(),
            forall|i: int|
                0 <= i < r.skills@.len() ==> (#[trigger] r.skills@[i]).0
                    == old(self).skills.skill_tree@[i].0
                    && r.skills@[i].1@.map_values(str_item_view()) == sort_by_key(
                    ranked_phrases(*word_cloud, old(self).skills.skill_tree@[i].1@),
                    pair_key::<String>(),
                ),
            final(self).work_experience@.len() == old(self).work_experience@.len(),
            forall|i: int|
                0 <= i < old(self).work_experience@.len() ==> we_resorted(
                    *word_cloud,
                    old(self).work_experience@[i],
                    #[trigger] final(self).work_experience@[i],
                ),
            r.work_experience@.map_values(we_item_view()) == sort_by_key(
                ranked_work(*word_cloud, final(self).work_experience@),
                pair_key::<WorkExperienceV>(),
            ),
            final(self).education@.len() == old(self).education@.len(),
            forall|i: int|
                0 <= i < old(self).education@.len() ==> edu_resorted(
                    *word_cloud,
                    old(self).education@[i],
                    #[trigger] final(self).education@[i],
                ),
            r.education@.map_values(edu_item_view()) == sort_by_key(
                ranked_education(*word_cloud, final(self).education@),
                pair_key::<EducationV>(),
            ),
            final(self).projects@.len() == old(self).projects@.len(),
            forall|i: int|
                0 <= i < old(self).projects@.len() ==> proj_resorted(
                    *word_cloud,
                    old(self).projects@[i],
                    #[trigger] final(self).projects@[i],
                ),
            r.projects@.map_values(proj_item_view()) == sort_by_key(
                ranked_projects(*word_cloud, final(self).projects@),
                pair_key::<ProjectV>(),
            ),
            final(self).name == old(self).name,
            final(self).linked_in == old(self).linked_in,
            final(self).website == old(self).website,
            final(self).skills == old(self).skills,
    {
        let mut resume = Resume::new();
        resume.skills = self.create_sorted_skill_list(word_cloud);
        resume.work_experience = self.create_sorted_work_experience_list(word_cloud);
        resume.education = self.create_sorted_education_list(word_cloud);
        resume.projects = self.create_sorted_project_list(word_cloud);
        resume
    }
}

} // verus!
