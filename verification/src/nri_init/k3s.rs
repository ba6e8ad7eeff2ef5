//! The templates that K3s makes containerd's configuration from.

use vstd::prelude::*;

use crate::nri_init::opts::str_view;
use crate::search::{begins, contains, occurs, occurs_at, replace, replaced};
use crate::text::{concat, str_eq};

verus! {

pub const DEFAULT_TEMPLATE_DIR: &'static str = "/var/lib/rancher/k3s/agent/etc/containerd";

/// The file names of the two templates below their directory.
pub const TEMPLATE_V2: &'static str = "config.toml.tmpl";

pub const TEMPLATE_V3: &'static str = "config-v3.toml.tmpl";

/// A template that only takes over K3s's own.
pub const BASE_V2: &'static str =
    "# K3s containerd config template with NRI\n{{ template \"base\" . }}\n";

pub const BASE_V3: &'static str =
    "# K3s containerd config template with NRI (v3)\n{{ template \"base\" . }}\n";

/// What enables the plugin interface in a template.
pub const NRI_SECTION: &'static str = r#"

[plugins."io.containerd.nri.v1.nri"]
  disable = false
  disable_connections = false
  plugin_config_path = "/etc/nri/conf.d"
  plugin_path = "/opt/nri/plugins"
  plugin_registration_timeout = "5s"
  plugin_request_timeout = "2s"
  socket_path = "/var/run/nri/nri.sock"
"#;

/// What a template that has the section holds.
pub const SECTION_KEY: &'static str = "plugins.\"io.containerd.nri.v1.nri\"";

pub const DISABLED: &'static str = "disable = true";

pub const ENABLED: &'static str = "disable = false";

/// A template once it enables the plugin interface: with the section where it has none, and else
/// with everything enabled that is disabled.
pub open spec fn patched(content: Seq<char>) -> Seq<char> {
    if !occurs(content, SECTION_KEY@) {
        content + NRI_SECTION@
    } else if occurs(content, DISABLED@) {
        replaced(content, DISABLED@, ENABLED@)
    } else {
        content
    }
}

/// Whether a template has to be changed to enable the plugin interface.
pub open spec fn needs_patch(content: Seq<char>) -> bool {
    !occurs(content, SECTION_KEY@) || (occurs(content, DISABLED@) && replaced(
        content,
        DISABLED@,
        ENABLED@,
    ) != content)
}

/// The template once it enables the plugin interface; `None` where it need not be changed.
pub fn patch_template(content: &str) -> (r: Option<String>)
    ensures
        match r {
            Some(s) => needs_patch(content@) && s@ == patched(content@),
            None => !needs_patch(content@) && patched(content@) == content@,
        },
{
    if !contains(content, SECTION_KEY) {
        Some(concat(content, NRI_SECTION))
    } else if contains(content, DISABLED) {
        proof {
            reveal_strlit("disable = true");
        }
        let enabled = replace(content, DISABLED, ENABLED);
        if str_eq(enabled.as_str(), content) {
            None
        } else {
            Some(enabled)
        }
    } else {
        None
    }
}

/// One of the two templates.
#[derive(Debug, Clone, Copy, PartialEq, Eq, Structural)]
pub enum TemplateFile {
    V2,
    V3,
}

/// A template to be written.
#[derive(Debug)]
pub struct TemplateWrite {
    pub file: TemplateFile,
    pub content: String,
}

/// What is to be done with the templates: whether their directory is to be made, what is to be
/// written in turn, and whether that changes anything.
#[derive(Debug)]
pub struct TemplatePlan {
    pub create_dir: bool,
    pub writes: Vec<TemplateWrite>,
    pub changed: bool,
}

/// What is to be done with the templates, as a value.
pub ghost struct PlanView {
    pub create_dir: bool,
    pub writes: Seq<(TemplateFile, Seq<char>)>,
    pub changed: bool,
}

/// Writes as values.
pub open spec fn write_views(writes: Seq<TemplateWrite>) -> Seq<(TemplateFile, Seq<char>)> {
    writes.map_values(|w: TemplateWrite| (w.file, w.content@))
}

impl View for TemplatePlan {
    type V = PlanView;

    open spec fn view(&self) -> PlanView {
        PlanView {
            create_dir: self.create_dir,
            writes: write_views(self.writes@),
            changed: self.changed,
        }
    }
}

impl PlanView {
    /// The plan once a template that is there was looked at.
    pub open spec fn with_patch(
        self,
        file: TemplateFile,
        content: Option<Seq<char>>,
        dry_run: bool,
    ) -> PlanView {
        match content {
            Some(c) if needs_patch(c) => PlanView {
                writes: if dry_run {
                    self.writes
                } else {
                    self.writes.push((file, patched(c)))
                },
                changed: true,
                ..self
            },
            _ => self,
        }
    }
}

/// What is to be done, given the templates that are there. Where there is none, both are made.
pub open spec fn template_plan(
    v2: Option<Seq<char>>,
    v3: Option<Seq<char>>,
    dry_run: bool,
) -> PlanView {
    let missing = v2 is None && v3 is None;
    let make = missing && !dry_run;
    let start = PlanView {
        create_dir: make,
        writes: if make {
            seq![(TemplateFile::V2, BASE_V2@), (TemplateFile::V3, BASE_V3@)]
        } else {
            Seq::empty()
        },
        changed: missing,
    };
    let now_v2 = if make {
        Some(BASE_V2@)
    } else {
        v2
    };
    let now_v3 = if make {
        Some(BASE_V3@)
    } else {
        v3
    };
    start.with_patch(TemplateFile::V2, now_v2, dry_run).with_patch(
        TemplateFile::V3,
        now_v3,
        dry_run,
    )
}

impl TemplatePlan {
    /// Looks at a template that is there.
    fn add_patch(&mut self, file: TemplateFile, content: Option<&str>, dry_run: bool)
        ensures
            final(self)@ == old(self)@.with_patch(file, str_view(content), dry_run),
    {
        if let Some(c) = content {
            if let Some(content) = patch_template(c) {
                if !dry_run {
                    let ghost before = self.writes@;
                    let w = TemplateWrite { file, content };
                    self.writes.push(w);
                    assert(write_views(self.writes@) =~= write_views(before).push(
                        (w.file, w.content@),
                    ));
                }
                self.changed = true;
            }
        }
    }
}

/// What is to be done with the templates in a directory, given those that are there.
pub fn configure_k3s_templates_in(v2: Option<&str>, v3: Option<&str>, dry_run: bool) -> (r:
    TemplatePlan)
    ensures
        r@ == template_plan(str_view(v2), str_view(v3), dry_run),
{
    let mut plan = TemplatePlan { create_dir: false, writes: Vec::new(), changed: false };
    assert(plan@.writes =~= Seq::<(TemplateFile, Seq<char>)>::empty());
    if v2.is_none() && v3.is_none() {
        plan.changed = true;
        if !dry_run {
            plan.create_dir = true;
            plan.writes.push(
                TemplateWrite { file: TemplateFile::V2, content: BASE_V2.to_string() },
            );
            plan.writes.push(
                TemplateWrite { file: TemplateFile::V3, content: BASE_V3.to_string() },
            );
            assert(plan@.writes =~= seq![
                (TemplateFile::V2, BASE_V2@),
                (TemplateFile::V3, BASE_V3@),
            ]);
            plan.add_patch(TemplateFile::V2, Some(BASE_V2), dry_run);
            plan.add_patch(TemplateFile::V3, Some(BASE_V3), dry_run);
            return plan;
        }
    }
    plan.add_patch(TemplateFile::V2, v2, dry_run);
    plan.add_patch(TemplateFile::V3, v3, dry_run);
    plan
}

/// A template is only changed where it does not enable the plugin interface as it is, and then it
/// has the section.
pub proof fn law_patched_has_section(content: Seq<char>)
    ensures
        needs_patch(content) || patched(content) == content,
        !occurs(content, SECTION_KEY@) ==> occurs(patched(content), SECTION_KEY@),
{
    if !occurs(content, SECTION_KEY@) {
        lemma_section_key();
        let n = content.len() as int;
        assert(occurs_at(patched(content), SECTION_KEY@, n + 3)) by {
            assert(patched(content).subrange(n + 3, n + 3 + SECTION_KEY@.len() as int) =~= NRI_SECTION@.subrange(
                3,
                3 + SECTION_KEY@.len() as int,
            ));
        }
    }
}

proof fn lemma_section_key()
    ensures
        NRI_SECTION@.len() >= 3 + SECTION_KEY@.len(),
        NRI_SECTION@.subrange(3, 3 + SECTION_KEY@.len() as int) == SECTION_KEY@,
{
    reveal_strlit("plugins.\"io.containerd.nri.v1.nri\"");
    reveal_strlit(
        r#"

[plugins."io.containerd.nri.v1.nri"]
  disable = false
  disable_connections = false
  plugin_config_path = "/etc/nri/conf.d"
  plugin_path = "/opt/nri/plugins"
  plugin_registration_timeout = "5s"
  plugin_request_timeout = "2s"
  socket_path = "/var/run/nri/nri.sock"
"#,
    );
    assert(NRI_SECTION@.subrange(3, 3 + SECTION_KEY@.len() as int) =~= SECTION_KEY@);
}

/// A dry run writes nothing, and makes no directory.
pub proof fn law_dry_run_writes_nothing(v2: Option<Seq<char>>, v3: Option<Seq<char>>)
    ensures
        template_plan(v2, v3, true).writes.len() == 0,
        !template_plan(v2, v3, true).create_dir,
{
}

/// A dry run tells whether a run would change anything.
pub proof fn law_dry_run_tells(v2: Option<Seq<char>>, v3: Option<Seq<char>>)
    ensures
        template_plan(v2, v3, true).changed == template_plan(v2, v3, false).changed,
{
}

/// A suffix of what is replaced stands at the start of a text that was replaced only where it stood
/// there before: what is put in starts with the one character that no such suffix holds.
proof fn lemma_suffix_was_there(s: Seq<char>, j: int)
    requires
        1 <= j <= DISABLED@.len(),
        begins(replaced(s, DISABLED@, ENABLED@), DISABLED@.skip(j)),
    ensures
        begins(s, DISABLED@.skip(j)),
    decreases s.len(),
{
    reveal_strlit("disable = true");
    reveal_strlit("disable = false");
    let q = DISABLED@.skip(j);
    let out = replaced(s, DISABLED@, ENABLED@);
    if q.len() == 0 {
        assert(s.subrange(0, 0) =~= q);
    } else if s.len() > 0 {
        assert(out.subrange(0, q.len() as int)[0] == q[0]);
        assert(q[0] != 'd');
        if begins(s, DISABLED@) {
            assert(out[0] == ENABLED@[0]);
        } else {
            let rest = s.drop_first();
            let rest_out = replaced(rest, DISABLED@, ENABLED@);
            let next = DISABLED@.skip(j + 1);
            assert(rest_out.subrange(0, next.len() as int) =~= next) by {
                assert forall|k: int| 0 <= k < next.len() implies rest_out[k] == next[k] by {
                    assert(out[k + 1] == rest_out[k]);
                    assert(out.subrange(0, q.len() as int)[k + 1] == q[k + 1]);
                }
            }
            lemma_suffix_was_there(rest, j + 1);
            assert(s.subrange(0, q.len() as int) =~= q) by {
                assert forall|k: int| 0 <= k < q.len() implies s[k] == q[k] by {
                    if k > 0 {
                        assert(rest.subrange(0, next.len() as int)[k - 1] == next[k - 1]);
                    }
                }
            }
        }
    }
}

/// Nothing disabled is left once everything that is disabled was enabled.
proof fn lemma_nothing_left_disabled(s: Seq<char>)
    ensures
        !occurs(replaced(s, DISABLED@, ENABLED@), DISABLED@),
    decreases s.len(),
{
    reveal_strlit("disable = true");
    reveal_strlit("disable = false");
    let out = replaced(s, DISABLED@, ENABLED@);
    let n = DISABLED@.len() as int;
    if s.len() > 0 {
        if begins(s, DISABLED@) {
            lemma_nothing_left_disabled(s.skip(n));
        } else {
            lemma_nothing_left_disabled(s.drop_first());
        }
    }
    assert forall|i: int| !occurs_at(out, DISABLED@, i) by {
        if occurs_at(out, DISABLED@, i) {
            let here = out.subrange(i, i + n);
            assert(here[0] == DISABLED@[0]);
            if s.len() == 0 {
                assert(false);
            } else if begins(s, DISABLED@) {
                let rest_out = replaced(s.skip(n), DISABLED@, ENABLED@);
                if i == 0 {
                    assert(here[10] == DISABLED@[10]);
                    assert(out[10] == ENABLED@[10]);
                } else if i < ENABLED@.len() {
                    assert(out[i] == ENABLED@[i]);
                } else {
                    let at = i - ENABLED@.len();
                    assert(rest_out.subrange(at, at + n) =~= here);
                    assert(occurs_at(rest_out, DISABLED@, at));
                }
            } else {
                let rest = s.drop_first();
                let rest_out = replaced(rest, DISABLED@, ENABLED@);
                if i == 0 {
                    let q = DISABLED@.skip(1);
                    assert(rest_out.subrange(0, q.len() as int) =~= q) by {
                        assert forall|k: int| 0 <= k < q.len() implies rest_out[k] == q[k] by {
                            assert(here[k + 1] == DISABLED@[k + 1]);
                        }
                    }
                    lemma_suffix_was_there(rest, 1);
                    assert(s.subrange(0, n) =~= DISABLED@) by {
                        assert forall|k: int| 0 <= k < n implies s[k] == DISABLED@[k] by {
                            if k > 0 {
                                assert(rest.subrange(0, q.len() as int)[k - 1] == q[k - 1]);
                            } else {
                                assert(out[0] == s[0]);
                            }
                        }
                    }
                } else {
                    assert(rest_out.subrange(i - 1, i - 1 + n) =~= here);
                    assert(occurs_at(rest_out, DISABLED@, i - 1));
                }
            }
        }
    }
}

/// The key of the section is not touched by what is replaced.
proof fn lemma_key_suffix_stays(s: Seq<char>, j: int)
    requires
        0 <= j <= SECTION_KEY@.len(),
        begins(s, SECTION_KEY@.skip(j)),
    ensures
        begins(replaced(s, DISABLED@, ENABLED@), SECTION_KEY@.skip(j)),
    decreases s.len(),
{
    reveal_strlit("disable = true");
    reveal_strlit("plugins.\"io.containerd.nri.v1.nri\"");
    let q = SECTION_KEY@.skip(j);
    let out = replaced(s, DISABLED@, ENABLED@);
    if q.len() == 0 {
        assert(out.subrange(0, 0) =~= q);
    } else {
        assert(s.subrange(0, q.len() as int)[0] == q[0]);
        assert(!begins(s, DISABLED@)) by {
            if begins(s, DISABLED@) {
                assert(s.subrange(0, DISABLED@.len() as int)[0] == DISABLED@[0]);
                assert(s.subrange(0, DISABLED@.len() as int)[1] == DISABLED@[1]);
                assert(SECTION_KEY@[j] == 'd');
                assert(j == 18);
                assert(s.subrange(0, q.len() as int)[1] == q[1]);
            }
        }
        let rest = s.drop_first();
        let rest_out = replaced(rest, DISABLED@, ENABLED@);
        let next = SECTION_KEY@.skip(j + 1);
        assert(rest.subrange(0, next.len() as int) =~= next) by {
            assert forall|k: int| 0 <= k < next.len() implies rest[k] == next[k] by {
                assert(s.subrange(0, q.len() as int)[k + 1] == q[k + 1]);
            }
        }
        lemma_key_suffix_stays(rest, j + 1);
        assert(out.subrange(0, q.len() as int) =~= q) by {
            assert forall|k: int| 0 <= k < q.len() implies out[k] == q[k] by {
                if k > 0 {
                    assert(rest_out.subrange(0, next.len() as int)[k - 1] == next[k - 1]);
                }
            }
        }
    }
}

/// A template keeps its section where everything that is disabled is enabled.
proof fn lemma_section_stays(s: Seq<char>, i: int)
    requires
        occurs_at(s, SECTION_KEY@, i),
    ensures
        occurs(replaced(s, DISABLED@, ENABLED@), SECTION_KEY@),
    decreases s.len(),
{
    reveal_strlit("disable = true");
    reveal_strlit("plugins.\"io.containerd.nri.v1.nri\"");
    let out = replaced(s, DISABLED@, ENABLED@);
    let n = DISABLED@.len() as int;
    let m = SECTION_KEY@.len() as int;
    if i == 0 {
        assert(SECTION_KEY@.skip(0) =~= SECTION_KEY@);
        lemma_key_suffix_stays(s, 0);
        assert(occurs_at(out, SECTION_KEY@, 0));
    } else if begins(s, DISABLED@) {
        let rest = s.skip(n);
        let rest_out = replaced(rest, DISABLED@, ENABLED@);
        if i < n {
            assert(s.subrange(i, i + m)[0] == SECTION_KEY@[0]);
            assert(s.subrange(0, n)[i] == DISABLED@[i]);
        } else {
            assert(rest.subrange(i - n, i - n + m) =~= s.subrange(i, i + m));
            lemma_section_stays(rest, i - n);
            let at = choose|at: int| occurs_at(rest_out, SECTION_KEY@, at);
            let moved = at + ENABLED@.len();
            assert(out.subrange(moved, moved + m) =~= rest_out.subrange(at, at + m));
            assert(occurs_at(out, SECTION_KEY@, moved));
        }
    } else {
        let rest = s.drop_first();
        let rest_out = replaced(rest, DISABLED@, ENABLED@);
        assert(rest.subrange(i - 1, i - 1 + m) =~= s.subrange(i, i + m));
        lemma_section_stays(rest, i - 1);
        let at = choose|at: int| occurs_at(rest_out, SECTION_KEY@, at);
        assert(out.subrange(at + 1, at + 1 + m) =~= rest_out.subrange(at, at + m));
        assert(occurs_at(out, SECTION_KEY@, at + 1));
    }
}

/// The section itself disables nothing.
proof fn lemma_section_enables()
    ensures
        !occurs(NRI_SECTION@, DISABLED@),
        NRI_SECTION@.len() > 0,
        NRI_SECTION@[0] == '\n',
{
    reveal_strlit("disable = true");
    reveal_strlit(
        r#"

[plugins."io.containerd.nri.v1.nri"]
  disable = false
  disable_connections = false
  plugin_config_path = "/etc/nri/conf.d"
  plugin_path = "/opt/nri/plugins"
  plugin_registration_timeout = "5s"
  plugin_request_timeout = "2s"
  socket_path = "/var/run/nri/nri.sock"
"#,
    );
    let t = NRI_SECTION@;
    let n = DISABLED@.len() as int;
    assert forall|i: int| !occurs_at(t, DISABLED@, i) by {
        if occurs_at(t, DISABLED@, i) {
            let here = t.subrange(i, i + n);
            assert(here[8] == DISABLED@[8]);
            assert(here[10] == DISABLED@[10]);
            assert(t[i + 8] == '=');
            assert(t[i + 10] == 't');
        }
    }
}

/// A template that was made to enable the plugin interface is not changed again, unless it had no
/// section and disabled something else.
pub proof fn law_patching_is_idempotent(content: Seq<char>)
    requires
        occurs(content, SECTION_KEY@) || !occurs(content, DISABLED@),
    ensures
        !needs_patch(patched(content)),
        patched(patched(content)) == patched(content),
{
    if !occurs(content, SECTION_KEY@) {
        law_patched_has_section(content);
        lemma_section_enables();
        reveal_strlit("disable = true");
        let n = DISABLED@.len() as int;
        let m = content.len() as int;
        let whole = patched(content);
        assert forall|i: int| !occurs_at(whole, DISABLED@, i) by {
            if occurs_at(whole, DISABLED@, i) {
                let here = whole.subrange(i, i + n);
                if i + n <= m {
                    assert(content.subrange(i, i + n) =~= here);
                    assert(occurs_at(content, DISABLED@, i));
                } else if i >= m {
                    assert(NRI_SECTION@.subrange(i - m, i - m + n) =~= here);
                    assert(occurs_at(NRI_SECTION@, DISABLED@, i - m));
                } else {
                    assert(here[m - i] == DISABLED@[m - i]);
                    assert(whole[m] == '\n');
                }
            }
        }
    } else if occurs(content, DISABLED@) {
        lemma_nothing_left_disabled(content);
        let i = choose|i: int| occurs_at(content, SECTION_KEY@, i);
        lemma_section_stays(content, i);
    }
}

/// What a template file holds in the end: what was written to it last, or else what it held.
pub open spec fn held_after(
    writes: Seq<(TemplateFile, Seq<char>)>,
    file: TemplateFile,
    before: Option<Seq<char>>,
) -> Option<Seq<char>>
    decreases writes.len(),
{
    if writes.len() == 0 {
        before
    } else if writes.last().0 == file {
        Some(writes.last().1)
    } else {
        held_after(writes.drop_last(), file, before)
    }
}

/// After a run every template that was there has the section, each independently of the other: one
/// that had none holds what it held and the section behind it, one that enables the plugin interface
/// is left as it was, and none is made beside one that is there. Where none was there, both are made
/// and have the section.
pub proof fn law_every_template_is_enabled(v2: Option<Seq<char>>, v3: Option<Seq<char>>)
    ensures
        ({
            let writes = template_plan(v2, v3, false).writes;
            let now_v2 = held_after(writes, TemplateFile::V2, v2);
            let now_v3 = held_after(writes, TemplateFile::V3, v3);
            &&& v2 is Some ==> now_v2 is Some && enabled_from(v2.unwrap(), now_v2.unwrap())
            &&& v3 is Some ==> now_v3 is Some && enabled_from(v3.unwrap(), now_v3.unwrap())
            &&& v2 is Some && v3 is None ==> now_v3 is None
            &&& v2 is None && v3 is Some ==> now_v2 is None
            &&& v2 is None && v3 is None ==> now_v2 is Some && enabled_from(
                BASE_V2@,
                now_v2.unwrap(),
            ) && now_v3 is Some && enabled_from(BASE_V3@, now_v3.unwrap())
        }),
{
    reveal_with_fuel(held_after, 5);
    match v2 {
        Some(c) => {
            lemma_enabled_from(c);
        },
        None => {},
    }
    match v3 {
        Some(c) => {
            lemma_enabled_from(c);
        },
        None => {},
    }
    lemma_enabled_from(BASE_V2@);
    lemma_enabled_from(BASE_V3@);
    let writes = template_plan(v2, v3, false).writes;
    if writes.len() > 0 {
        assert(writes.drop_last().len() == writes.len() - 1);
    }
}

/// Whether a template enables the plugin interface as the one that it was made of is to: it holds
/// all of that and the section, where that had none; and else it is that, with nothing left
/// disabled.
pub open spec fn enabled_from(content: Seq<char>, now: Seq<char>) -> bool {
    if occurs(content, SECTION_KEY@) {
        &&& occurs(now, SECTION_KEY@)
        &&& !occurs(now, DISABLED@)
        &&& !occurs(content, DISABLED@) ==> now == content
    } else {
        now == content + NRI_SECTION@
    }
}

proof fn lemma_enabled_from(content: Seq<char>)
    ensures
        enabled_from(content, patched(content)),
        needs_patch(content) || patched(content) == content,
{
    if occurs(content, SECTION_KEY@) && occurs(content, DISABLED@) {
        lemma_nothing_left_disabled(content);
        let i = choose|i: int| occurs_at(content, SECTION_KEY@, i);
        lemma_section_stays(content, i);
    }
}

/// A run changes something exactly where a template is missing, or has no section, or has one and
/// disables something.
pub proof fn law_what_counts_as_a_change(
    v2: Option<Seq<char>>,
    v3: Option<Seq<char>>,
    dry_run: bool,
)
    ensures
        template_plan(v2, v3, dry_run).changed == ((v2 is None && v3 is None) || is_not_enabled(v2)
            || is_not_enabled(v3)),
        template_plan(v2, v3, dry_run).create_dir == (v2 is None && v3 is None && !dry_run),
{
    match v2 {
        Some(c) => {
            lemma_disabled_is_replaced(c);
        },
        None => {},
    }
    match v3 {
        Some(c) => {
            lemma_disabled_is_replaced(c);
        },
        None => {},
    }
    lemma_disabled_is_replaced(BASE_V2@);
    lemma_disabled_is_replaced(BASE_V3@);
}

/// Whether a template that is there does not enable the plugin interface.
pub open spec fn is_not_enabled(content: Option<Seq<char>>) -> bool {
    match content {
        Some(c) => !occurs(c, SECTION_KEY@) || occurs(c, DISABLED@),
        None => false,
    }
}

proof fn lemma_disabled_is_replaced(content: Seq<char>)
    ensures
        occurs(content, SECTION_KEY@) && occurs(content, DISABLED@) ==> replaced(
            content,
            DISABLED@,
            ENABLED@,
        ) != content,
{
    if occurs(content, SECTION_KEY@) && occurs(content, DISABLED@) {
        lemma_nothing_left_disabled(content);
    }
}

}
