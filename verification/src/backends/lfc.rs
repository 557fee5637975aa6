//! The code generator as a backend of its own.

use vstd::prelude::*;

use crate::backends::{
    lemma_mapped_by, lemma_mapped_continues, BatchBackend, BatchBuildResults, BatchView,
    BuildCommandOptions, CommandSpec,
};
use crate::package::App;
use crate::util::errors::BuildResult;
use crate::util::text::concat;
use crate::util::{
    action_views, build_artifacts, default_build_clean, outcome_of, performed, run_all, Action,
    ActionView,
};

verus! {

/// A JSON value of `serde_json`.
#[verifier::external_type_specification]
#[verifier::external_body]
pub struct ExJsonValue(serde_json::Value);

/// The JSON string that `serde_json` writes for a text: the text in double
/// quotes with every character escaped that JSON asks to escape.
pub uninterp spec fn json_text(text: Seq<char>) -> Seq<char>;

/// The compact JSON text that `serde_json` writes for a value.
pub uninterp spec fn json_written(value: serde_json::Value) -> Seq<char>;

/// Whether `left` comes before `right` in the order of strings, and is not
/// the same: where the two first differ, `left` has the smaller character,
/// or `left` ends there and `right` goes on.
pub open spec fn precedes(left: Seq<char>, right: Seq<char>) -> bool {
    exists|i: int|
        0 <= i <= left.len() && i < right.len() && #[trigger] left.take(i) == right.take(i) && (i
            == left.len() || (left[i] as u32) < (right[i] as u32))
}

/// Whether each key comes before the next in the order of strings.
pub open spec fn ascending(keys: Seq<Seq<char>>) -> bool {
    forall|i: int| 0 <= i < keys.len() - 1 ==> precedes(#[trigger] keys[i], keys[i + 1])
}

/// The members of a JSON object as compact JSON writes them: each key as a
/// JSON string, `:` and the text of its value, with `,` between the
/// members.
pub open spec fn members_text(members: Seq<(Seq<char>, Seq<char>)>) -> Seq<char>
    decreases members.len(),
{
    if members.len() == 0 {
        Seq::empty()
    } else if members.len() == 1 {
        json_text(members[0].0) + seq![':'] + members[0].1
    } else {
        members_text(members.drop_last()) + seq![','] + json_text(members.last().0) + seq![':']
            + members.last().1
    }
}

/// A JSON object as compact JSON writes it: its members between braces.
pub open spec fn object_text(members: Seq<(Seq<char>, Seq<char>)>) -> Seq<char> {
    seq!['{'] + members_text(members) + seq!['}']
}

/// The keys of the members of an object.
pub open spec fn member_keys(members: Seq<(String, serde_json::Value)>) -> Seq<Seq<char>> {
    members.map_values(|member: (String, serde_json::Value)| member.0@)
}

/// The keys of the members of an object with the texts of their values.
pub open spec fn member_texts(members: Seq<(String, serde_json::Value)>) -> Seq<(Seq<char>, Seq<char>)> {
    members.map_values(|member: (String, serde_json::Value)| (member.0@, json_written(member.1)))
}

/// `serde_json::Value::String` of the text: a value that is written as the
/// JSON string of the text.
#[verifier::external_body]
fn json_string(text: &str) -> (value: serde_json::Value)
    ensures
        json_written(value) == json_text(text@),
{
    serde_json::Value::String(text.to_owned())
}

/// `serde_json::Value::Bool` of the flag: a value that is written as `true`
/// or `false`.
#[verifier::external_body]
fn json_bool(flag: bool) -> (value: serde_json::Value)
    ensures
        json_written(value) == if flag {
            "true"@
        } else {
            "false"@
        },
{
    serde_json::Value::Bool(flag)
}

/// `serde_json::Value::Object` of a `serde_json::Map` that is collected
/// from the members. Keys that ascend are distinct and keep their places in
/// the map, so the object is written with the members in the order given.
#[verifier::external_body]
fn json_object(members: Vec<(String, serde_json::Value)>) -> (value: serde_json::Value)
    requires
        ascending(member_keys(members@)),
    ensures
        json_written(value) == object_text(member_texts(members@)),
{
    serde_json::Value::Object(members.into_iter().collect())
}

/// Writes the value with its `Display` implementation, which gives compact
/// JSON.
#[verifier::external_body]
fn json_write(value: &serde_json::Value) -> (json: String)
    ensures
        json@ == json_written(*value),
{
    value.to_string()
}

/// Builds apps for which the code generator does everything.
pub struct LFC;

/// Formats LFC arguments to JSON.
pub struct LfcJsonArgs<'a> {
    /// Path to the LF source file containing the main reactor.
    pub src: &'a str,
    /// Path to the directory into which build artifacts like
    /// the src-gen and bin directory are generated.
    pub out: &'a str,
    /// Whether the runtime should skip waiting for physical time.
    pub fast: bool,
    /// Whether the code generator should leave the target code uncompiled.
    pub no_compile: bool,
}

/// The properties that the code generator is called with, as JSON: an
/// object that holds `fast`, and `no-compile` only where it is set.
pub open spec fn properties_json(fast: bool, no_compile: bool) -> Seq<char> {
    let fast_member = ("fast"@, if fast {
        "true"@
    } else {
        "false"@
    });
    if no_compile {
        object_text(seq![fast_member, ("no-compile"@, "true"@)])
    } else {
        object_text(seq![fast_member])
    }
}

/// The arguments that the code generator is called with, as JSON: an
/// object that holds the output root, the properties and the source file.
pub open spec fn arguments_json(src: Seq<char>, out: Seq<char>, fast: bool, no_compile: bool) -> Seq<char> {
    object_text(
        seq![
            ("out"@, json_text(out)),
            ("properties"@, properties_json(fast, no_compile)),
            ("src"@, json_text(src)),
        ],
    )
}

impl<'a> LfcJsonArgs<'a> {
    /// The arguments for the code generation of an app.
    pub fn new(app: &'a App, compile_target_code: bool) -> (args: Self)
        ensures
            args.src@ == app.main_reactor@,
            args.out@ == app.output_root@,
            args.fast == app.properties.fast,
            args.no_compile == !compile_target_code,
    {
        Self {
            src: app.main_reactor.as_str(),
            out: app.output_root.as_str(),
            fast: app.properties.fast,
            no_compile: !compile_target_code,
        }
    }

    /// The properties as a JSON value.
    fn properties_value(&self) -> (value: serde_json::Value)
        ensures
            json_written(value) == properties_json(self.fast, self.no_compile),
    {
        let mut members: Vec<(String, serde_json::Value)> = Vec::new();
        members.push(("fast".to_owned(), json_bool(self.fast)));
        // lfc does not support no-compile:false
        if self.no_compile {
            members.push(("no-compile".to_owned(), json_bool(true)));
        }
        proof {
            reveal_strlit("fast");
            reveal_strlit("no-compile");
            let keys = member_keys(members@);
            if self.no_compile {
                assert(keys[0].take(0) =~= keys[1].take(0));
                assert(precedes(keys[0], keys[1]));
                assert(member_texts(members@) =~= seq![
                    ("fast"@, json_written(members@[0].1)),
                    ("no-compile"@, "true"@),
                ]);
            } else {
                assert(member_texts(members@) =~= seq![("fast"@, json_written(members@[0].1))]);
            }
        }
        json_object(members)
    }

    /// The properties as JSON.
    pub fn to_properties(&self) -> (json: String)
        ensures
            json@ == properties_json(self.fast, self.no_compile),
    {
        json_write(&self.properties_value())
    }

    /// convert lfc properties to string
    pub fn to_string(&self) -> (json: String)
        ensures
            json@ == arguments_json(self.src@, self.out@, self.fast, self.no_compile),
    {
        let mut members: Vec<(String, serde_json::Value)> = Vec::new();
        members.push(("out".to_owned(), json_string(self.out)));
        members.push(("properties".to_owned(), self.properties_value()));
        members.push(("src".to_owned(), json_string(self.src)));
        proof {
            reveal_strlit("out");
            reveal_strlit("properties");
            reveal_strlit("src");
            let keys = member_keys(members@);
            assert(keys[0].take(0) =~= keys[1].take(0));
            assert(keys[1].take(0) =~= keys[2].take(0));
            assert(precedes(keys[0], keys[1]));
            assert(precedes(keys[1], keys[2]));
            assert(member_texts(members@) =~= seq![
                ("out"@, json_text(self.out@)),
                ("properties"@, properties_json(self.fast, self.no_compile)),
                ("src"@, json_text(self.src@)),
            ]);
        }
        json_write(&json_object(members))
    }
}

/// What the code generation of an app consists of: the output root is
/// created, then the code generator is run with the arguments of the app.
pub open spec fn codegen_plan(app: App, options: BuildCommandOptions, compile_target_code: bool) -> Seq<
    ActionView,
> {
    seq![
        ActionView::CreateDirAll(app.output_root@),
        ActionView::Run {
            program: options.lfc_exec_path@,
            args: seq![
                "--json="@ + arguments_json(
                    app.main_reactor@,
                    app.output_root@,
                    app.properties.fast,
                    !compile_target_code,
                ),
            ],
            current_dir: None,
        },
    ]
}

/// The outcomes that the code generation of an app can have.
pub open spec fn codegen_step<R>(options: BuildCommandOptions, compile_target_code: bool, run: R) -> spec_fn(
    App,
    BuildResult,
) -> bool where R: Fn(&Action) -> BuildResult {
    |app: App, outcome: BuildResult|
        outcome_of(Some(codegen_plan(app, options, compile_target_code)), run, outcome)
}

/// The outcomes that removing the build output of an app can have.
pub open spec fn clean_step<R>(run: R) -> spec_fn(App, BuildResult) -> bool where
    R: Fn(&Action) -> BuildResult,
 {
    |app: App, outcome: BuildResult|
        exists|action: Action|
            #[trigger] action@ == (ActionView::DeleteSubdirs {
                root: app.output_root@,
                subdirs: build_artifacts(),
            }) && call_ensures(run, (&action,), outcome)
}

impl LFC {
    /// Do codegen for all apps in the batch result in parallel.
    pub fn do_parallel_lfc_codegen<R>(
        options: &BuildCommandOptions,
        results: &mut BatchBuildResults,
        compile_target_code: bool,
        run: &R,
    ) where R: Fn(&Action) -> BuildResult + Send + Sync
        requires
            forall|action: &Action| call_requires(*run, (action,)),
        ensures
            old(results)@.continued(final(results)@),
            old(results)@.mapped_by(
                codegen_step(*options, compile_target_code, *run),
                final(results)@,
            ),
    {
        let step = |app: &App| -> (outcome: BuildResult)
            ensures
                codegen_step(*options, compile_target_code, *run)(*app, outcome),
            { LFC::do_lfc_codegen(app, options, compile_target_code, run) };
        proof {
            results.lemma_wf();
        }
        results.par_map(step);
        proof {
            lemma_mapped_continues(old(results)@, step, results@);
            lemma_mapped_by(
                old(results)@,
                step,
                results@,
                codegen_step(*options, compile_target_code, *run),
            );
        }
    }

    /// The actions of the code generation of an app.
    pub fn plan_lfc_codegen(app: &App, options: &BuildCommandOptions, compile_target_code: bool) -> (plan:
        Vec<Action>)
        ensures
            action_views(plan@) == codegen_plan(*app, *options, compile_target_code),
    {
        let json = LfcJsonArgs::new(app, compile_target_code).to_string();
        let argument = concat("--json=", json.as_str());
        let mut args: Vec<String> = Vec::new();
        args.push(argument);
        let mut plan: Vec<Action> = Vec::new();
        plan.push(Action::CreateDirAll(app.output_root.clone()));
        plan.push(Action::Run { program: options.lfc_exec_path.clone(), args, current_dir: None });
        proof {
            assert(crate::package::target_properties::texts(plan@[1]->Run_args@) =~= seq![
                "--json="@ + arguments_json(
                    app.main_reactor@,
                    app.output_root@,
                    app.properties.fast,
                    !compile_target_code,
                ),
            ]);
            assert(action_views(plan@) =~= codegen_plan(*app, *options, compile_target_code));
        }
        plan
    }

    /// Do codegen for a single app.
    pub fn do_lfc_codegen<R>(
        app: &App,
        options: &BuildCommandOptions,
        compile_target_code: bool,
        run: &R,
    ) -> (result: BuildResult) where R: Fn(&Action) -> BuildResult
        requires
            forall|action: &Action| call_requires(*run, (action,)),
        ensures
            outcome_of(Some(codegen_plan(*app, *options, compile_target_code)), *run, result),
    {
        let plan = Self::plan_lfc_codegen(app, options, compile_target_code);
        let result = run_all(&plan, run);
        assert(action_views(plan@) == codegen_plan(*app, *options, compile_target_code));
        result
    }
}

/// Whether `after` is the batch `before` after the command was run by the
/// code generator alone: a build generates the code of every app and
/// compiles it where the options say so, a clean removes the build output
/// of every app, and an update leaves the batch alone.
pub open spec fn executed<R>(command: CommandSpec, before: BatchView, run: R, after: BatchView) -> bool where
    R: Fn(&Action) -> BuildResult,
 {
    match command {
        CommandSpec::Build(options) => before.mapped_by(
            codegen_step(options, options.compile_target_code, run),
            after,
        ),
        CommandSpec::Clean => before.mapped_by(clean_step(run), after),
        CommandSpec::Update => after == before,
    }
}

impl BatchBackend for LFC {
    /// Generates the code of every app for a build and removes the build
    /// output of every app for a clean. An update leaves the batch alone.
    fn execute_command<R>(&mut self, command: &CommandSpec, results: &mut BatchBuildResults, run: &R) where
        R: Fn(&Action) -> BuildResult + Send + Sync,

        ensures
            executed(*command, old(results)@, *run, final(results)@),
    {
        match command {
            CommandSpec::Build(options) => {
                LFC::do_parallel_lfc_codegen(options, results, options.compile_target_code, run)
            },
            CommandSpec::Update => {
                proof {
                    results.lemma_wf();
                }
            },
            CommandSpec::Clean => {
                clean_all(results, run);
            },
        }
    }
}

/// Removes the build output of every app of the batch.
pub fn clean_all<R>(results: &mut BatchBuildResults, run: &R) where
    R: Fn(&Action) -> BuildResult + Send + Sync,

    requires
        forall|action: &Action| call_requires(*run, (action,)),
    ensures
        old(results)@.continued(final(results)@),
        old(results)@.mapped_by(clean_step(*run), final(results)@),
{
    let step = |app: &App| -> (outcome: BuildResult)
        ensures
            clean_step(*run)(*app, outcome),
        { default_build_clean(app.output_root.as_str(), run) };
    proof {
        results.lemma_wf();
    }
    results.par_map(step);
    proof {
        lemma_mapped_continues(old(results)@, step, results@);
        lemma_mapped_by(old(results)@, step, results@, clean_step(*run));
    }
}

} // verus!
