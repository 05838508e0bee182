//! Assembling the script bundle: the runtime first, then the rule scripts
//! of each group in a fixed order, from the embedded table or a directory.
use vstd::prelude::*;
use crate::cli::{Module, Preset};
use crate::text::{joined, join, string_views, clone_strings, lemma_joined_append};

verus! {

/// A rule script compiled into the program, under its path relative to the
/// project (with `/` separators).
#[derive(Debug)]
pub struct EmbeddedScript {
    pub path: String,
    pub content: String,
}

/// Which scripts to load.
#[derive(Debug)]
pub struct ScriptLoadOptions {
    pub preset: Option<Preset>,
    pub module: Option<Module>,
    pub scripts_dir: Option<String>,
}

/// The groups every bundle holds, in load order.
pub open spec fn base_groups() -> Seq<Seq<char>> {
    seq!["sensors"@, "anti_injection"@, "anti_debug"@, "anti_sandbox"@]
}

/// The table prefix of a group directory: `scripts/<dir>/`.
pub open spec fn group_prefix(dir: Seq<char>) -> Seq<char> {
    "scripts/"@ + dir + "/"@
}

/// The table prefixes to load, in order: the four base groups, then the
/// preset's directory, then the module's.
pub open spec fn embedded_prefixes(options: ScriptLoadOptions) -> Seq<Seq<char>> {
    let base = base_groups().map_values(|g: Seq<char>| group_prefix(g));
    let with_preset = match options.preset {
        Some(p) => base.push(group_prefix("presets/"@ + p.dir_view())),
        None => base,
    };
    match options.module {
        Some(m) => with_preset.push(group_prefix("modules/"@ + m.dir_view())),
        None => with_preset,
    }
}

/// The contents of the table's scripts whose path starts with `prefix`, in
/// table order.
pub open spec fn group(table: Seq<EmbeddedScript>, prefix: Seq<char>) -> Seq<Seq<char>>
    decreases table.len(),
{
    if table.len() == 0 {
        Seq::empty()
    } else {
        let rest = group(table.drop_last(), prefix);
        if prefix.is_prefix_of(table.last().path@) {
            rest.push(table.last().content@)
        } else {
            rest
        }
    }
}

/// The groups for `prefixes`, one after another.
pub open spec fn groups(table: Seq<EmbeddedScript>, prefixes: Seq<Seq<char>>) -> Seq<Seq<char>>
    decreases prefixes.len(),
{
    if prefixes.len() == 0 {
        Seq::empty()
    } else {
        group(table, prefixes[0]) + groups(table, prefixes.drop_first())
    }
}

/// The embedded rule scripts that `options` select, in load order.
pub open spec fn embedded_bundle(table: Seq<EmbeddedScript>, options: ScriptLoadOptions) -> Seq<
    Seq<char>,
> {
    groups(table, embedded_prefixes(options))
}

/// The scripts of a bundle: the runtime first, then the rule scripts from
/// the scripts directory where one is given, else from the embedded table.
pub open spec fn bundle_parts(
    options: ScriptLoadOptions,
    runtime: Seq<String>,
    table: Seq<EmbeddedScript>,
    filesystem: Seq<String>,
) -> Seq<Seq<char>> {
    string_views(runtime) + match options.scripts_dir {
        Some(_) => string_views(filesystem),
        None => embedded_bundle(table, options),
    }
}

/// Whether `s` starts with `prefix` (`str::starts_with`).
pub fn starts_with(s: &str, prefix: &str) -> (r: bool)
    ensures
        r == prefix@.is_prefix_of(s@),
{
    let a = crate::text::char_vec(s);
    let b = crate::text::char_vec(prefix);
    if b.len() > a.len() {
        return false;
    }
    let n = b.len();
    let mut i: usize = 0;
    while i < n
        invariant
            a@ == s@,
            b@ == prefix@,
            n == b.len(),
            n <= a.len(),
            i <= n,
            forall|k: int| 0 <= k < i ==> a@[k] == b@[k],
        decreases n - i,
    {
        if a[i] != b[i] {
            return false;
        }
        i = i + 1;
    }
    true
}

/// The contents of the table's scripts whose path starts with `prefix`.
pub fn embedded_group(table: &Vec<EmbeddedScript>, prefix: &str) -> (r: Vec<String>)
    ensures
        string_views(r@) == group(table@, prefix@),
{
    let mut r: Vec<String> = Vec::new();
    let n = table.len();
    let mut i: usize = 0;
    while i < n
        invariant
            n == table.len(),
            i <= n,
            string_views(r@) == group(table@.take(i as int), prefix@),
        decreases n - i,
    {
        let ghost before = r@;
        assert(table@.take(i + 1).drop_last() =~= table@.take(i as int));
        assert(table@.take(i + 1).last() == table@[i as int]);
        if starts_with(table[i].path.as_str(), prefix) {
            r.push(table[i].content.clone());
            assert(string_views(r@) =~= string_views(before).push(table@[i as int].content@));
        }
        i = i + 1;
    }
    assert(table@.take(n as int) =~= table@);
    r
}

fn prefix_for(dir: &str) -> (r: String)
    ensures
        r@ == group_prefix(dir@),
{
    let mut r = String::new();
    r.append("scripts/");
    r.append(dir);
    r.append("/");
    r
}

fn nested_prefix(parent: &str, dir: &str) -> (r: String)
    ensures
        r@ == group_prefix(parent@ + dir@),
{
    let mut r = String::new();
    r.append("scripts/");
    r.append(parent);
    r.append(dir);
    r.append("/");
    r
}

/// The table prefixes that `options` select, in load order.
pub fn embedded_prefix_list(options: &ScriptLoadOptions) -> (r: Vec<String>)
    ensures
        string_views(r@) == embedded_prefixes(*options),
{
    let mut r: Vec<String> = Vec::new();
    r.push(prefix_for("sensors"));
    r.push(prefix_for("anti_injection"));
    r.push(prefix_for("anti_debug"));
    r.push(prefix_for("anti_sandbox"));
    let ghost base = base_groups().map_values(|g: Seq<char>| group_prefix(g));
    assert(string_views(r@) =~= base);
    if let Some(preset) = &options.preset {
        let ghost before = r@;
        r.push(nested_prefix("presets/", preset.dir_name()));
        assert(string_views(r@) =~= string_views(before).push(
            group_prefix("presets/"@ + preset.dir_view()),
        ));
    }
    if let Some(module) = &options.module {
        let ghost before = r@;
        r.push(nested_prefix("modules/", module.dir_name()));
        assert(string_views(r@) =~= string_views(before).push(
            group_prefix("modules/"@ + module.dir_view()),
        ));
    }
    r
}

/// The embedded rule scripts that `options` select, in load order.
pub fn load_embedded_scripts(table: &Vec<EmbeddedScript>, options: &ScriptLoadOptions) -> (r: Vec<
    String,
>)
    ensures
        string_views(r@) == embedded_bundle(table@, *options),
{
    let prefixes = embedded_prefix_list(options);
    let ghost ps = string_views(prefixes@);
    let n = prefixes.len();
    let mut r: Vec<String> = Vec::new();
    let mut k: usize = 0;
    assert(ps.take(0) =~= Seq::<Seq<char>>::empty());
    while k < n
        invariant
            n == prefixes.len(),
            ps == string_views(prefixes@),
            ps == embedded_prefixes(*options),
            k <= n,
            string_views(r@) == groups(table@, ps.take(k as int)),
        decreases n - k,
    {
        let mut g = embedded_group(table, prefixes[k].as_str());
        let ghost front = string_views(r@);
        let ghost back = string_views(g@);
        r.append(&mut g);
        proof {
            let one = seq![ps[k as int]];
            assert(ps.take(k + 1) =~= ps.take(k as int) + one);
            lemma_groups_append(table@, ps.take(k as int), one);
            assert(one.drop_first() =~= Seq::<Seq<char>>::empty());
            assert(groups(table@, one.drop_first()) =~= Seq::<Seq<char>>::empty());
            assert(one[0] == ps[k as int]);
            assert(groups(table@, one) == group(table@, one[0]) + groups(table@, one.drop_first()));
            assert(groups(table@, one) =~= group(table@, ps[k as int]));
            assert(string_views(r@) =~= front + back);
        }
        k = k + 1;
    }
    assert(ps.take(n as int) =~= ps);
    r
}

/// The whole script source to inject: the bundle's scripts joined with a
/// blank line between them.
pub fn scripts(
    options: &ScriptLoadOptions,
    runtime: &Vec<String>,
    table: &Vec<EmbeddedScript>,
    filesystem: &Vec<String>,
) -> (r: String)
    ensures
        r@ == joined(bundle_parts(*options, runtime@, table@, filesystem@), "\n\n"@),
{
    let mut parts = clone_strings(runtime);
    let rules = match &options.scripts_dir {
        Some(_) => clone_strings(filesystem),
        None => load_embedded_scripts(table, options),
    };
    let ghost front = string_views(parts@);
    let mut rules = rules;
    let ghost back = string_views(rules@);
    parts.append(&mut rules);
    assert(string_views(parts@) =~= front + back);
    join(&parts, "\n\n")
}

proof fn lemma_groups_append(
    table: Seq<EmbeddedScript>,
    p1: Seq<Seq<char>>,
    p2: Seq<Seq<char>>,
)
    ensures
        groups(table, p1 + p2) == groups(table, p1) + groups(table, p2),
    decreases p1.len(),
{
    if p1.len() == 0 {
        assert(p1 + p2 =~= p2);
        assert(groups(table, p1) + groups(table, p2) =~= groups(table, p2));
    } else {
        assert((p1 + p2)[0] == p1[0]);
        assert((p1 + p2).drop_first() =~= p1.drop_first() + p2);
        lemma_groups_append(table, p1.drop_first(), p2);
        assert(groups(table, p1 + p2) =~= groups(table, p1) + groups(table, p2));
    }
}

/// Law: choosing a preset or a module never drops or reorders the base rule
/// scripts: the bundle without them is a prefix of the bundle with them.
pub proof fn lemma_choices_only_append(table: Seq<EmbeddedScript>, options: ScriptLoadOptions)
    ensures
        embedded_bundle(
            table,
            ScriptLoadOptions { preset: None, module: None, scripts_dir: options.scripts_dir },
        ).is_prefix_of(embedded_bundle(table, options)),
{
    let base = base_groups().map_values(|g: Seq<char>| group_prefix(g));
    let none = ScriptLoadOptions { preset: None, module: None, scripts_dir: options.scripts_dir };
    assert(embedded_prefixes(none) == base);
    let extra = embedded_prefixes(options).skip(base.len() as int);
    assert(embedded_prefixes(options) =~= base + extra);
    lemma_groups_append(table, base, extra);
}

/// Law: the runtime scripts always come first: the bundle's text starts
/// with the runtime scripts joined as they stand.
pub proof fn lemma_runtime_first(
    options: ScriptLoadOptions,
    runtime: Seq<String>,
    table: Seq<EmbeddedScript>,
    filesystem: Seq<String>,
)
    requires
        runtime.len() > 0,
    ensures
        joined(string_views(runtime), "\n\n"@).is_prefix_of(
            joined(bundle_parts(options, runtime, table, filesystem), "\n\n"@),
        ),
{
    let parts = bundle_parts(options, runtime, table, filesystem);
    let front = string_views(runtime);
    let back = parts.skip(front.len() as int);
    assert(parts =~= front + back);
    if back.len() == 0 {
        assert(parts =~= front);
    } else {
        lemma_joined_append(front, back, "\n\n"@);
    }
}

/// The directories, relative to a scripts directory, whose scripts
/// `options` select, in load order.
pub open spec fn script_directories_view(options: ScriptLoadOptions) -> Seq<Seq<Seq<char>>> {
    let base = base_groups().map_values(|g: Seq<char>| seq![g]);
    let with_preset = match options.preset {
        Some(p) => base.push(seq!["presets"@, p.dir_view()]),
        None => base,
    };
    match options.module {
        Some(m) => with_preset.push(seq!["modules"@, m.dir_view()]),
        None => with_preset,
    }
}

/// Law: the directories to scan are the four base groups, then the
/// preset's directory exactly when a preset is chosen, then the module's
/// exactly when a module is chosen; the one choice does not affect the other.
pub proof fn lemma_script_directories_shape(options: ScriptLoadOptions)
    ensures
        script_directories_view(options).len() == 4 + (if options.preset is Some {
            1int
        } else {
            0int
        }) + (if options.module is Some {
            1int
        } else {
            0int
        }),
        script_directories_view(options)[0] == seq!["sensors"@],
        script_directories_view(options)[1] == seq!["anti_injection"@],
        script_directories_view(options)[2] == seq!["anti_debug"@],
        script_directories_view(options)[3] == seq!["anti_sandbox"@],
        options.preset matches Some(p) ==> script_directories_view(options)[4] == seq![
            "presets"@,
            p.dir_view(),
        ],
        options.module matches Some(m) ==> script_directories_view(options).last() == seq![
            "modules"@,
            m.dir_view(),
        ],
{
}

/// Law: the table prefixes follow the same shape: the four base groups,
/// then the preset's prefix exactly when a preset is chosen, then the
/// module's exactly when a module is chosen.
pub proof fn lemma_embedded_prefixes_shape(options: ScriptLoadOptions)
    ensures
        embedded_prefixes(options).len() == 4 + (if options.preset is Some {
            1int
        } else {
            0int
        }) + (if options.module is Some {
            1int
        } else {
            0int
        }),
        embedded_prefixes(options)[0] == "scripts/"@ + "sensors"@ + "/"@,
        embedded_prefixes(options)[1] == "scripts/"@ + "anti_injection"@ + "/"@,
        embedded_prefixes(options)[2] == "scripts/"@ + "anti_debug"@ + "/"@,
        embedded_prefixes(options)[3] == "scripts/"@ + "anti_sandbox"@ + "/"@,
        options.preset matches Some(p) ==> embedded_prefixes(options)[4] == "scripts/"@
            + ("presets/"@ + p.dir_view()) + "/"@,
        options.module matches Some(m) ==> embedded_prefixes(options).last() == "scripts/"@
            + ("modules/"@ + m.dir_view()) + "/"@,
{
}

fn single(dir: &str) -> (r: Vec<String>)
    ensures
        string_views(r@) == seq![dir@],
{
    let mut r: Vec<String> = Vec::new();
    r.push(dir.to_string());
    assert(string_views(r@) =~= seq![dir@]);
    r
}

fn pair(a: &str, b: &str) -> (r: Vec<String>)
    ensures
        string_views(r@) == seq![a@, b@],
{
    let mut r: Vec<String> = Vec::new();
    r.push(a.to_string());
    r.push(b.to_string());
    assert(string_views(r@) =~= seq![a@, b@]);
    r
}

/// The directories of a scripts directory to load, each given by its
/// components relative to the scripts directory.
pub fn script_directories(options: &ScriptLoadOptions) -> (r: Vec<Vec<String>>)
    ensures
        r@.map_values(|d: Vec<String>| string_views(d@)) == script_directories_view(*options),
{
    let mut r: Vec<Vec<String>> = Vec::new();
    r.push(single("sensors"));
    r.push(single("anti_injection"));
    r.push(single("anti_debug"));
    r.push(single("anti_sandbox"));
    assert(r@.map_values(|d: Vec<String>| string_views(d@)) =~= base_groups().map_values(
        |g: Seq<char>| seq![g],
    ));
    if let Some(preset) = &options.preset {
        let ghost before = r@;
        r.push(pair("presets", preset.dir_name()));
        assert(r@.map_values(|d: Vec<String>| string_views(d@)) =~= before.map_values(
            |d: Vec<String>| string_views(d@),
        ).push(seq!["presets"@, preset.dir_view()]));
    }
    if let Some(module) = &options.module {
        let ghost before = r@;
        r.push(pair("modules", module.dir_name()));
        assert(r@.map_values(|d: Vec<String>| string_views(d@)) =~= before.map_values(
            |d: Vec<String>| string_views(d@),
        ).push(seq!["modules"@, module.dir_view()]));
    }
    r
}

} // verus!
