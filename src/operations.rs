//! What a filter does to a message it matches, as an ordered plan of
//! actions for the caller to carry out.
use vstd::prelude::*;

use crate::error::FilterError;
use crate::value::{texts_of, Value, ValueModel};

verus! {

/// Operations a filter applies to the messages it matches.
#[derive(Debug)]
pub struct Operations {
    /// Remove tags: one, several, or (`Bool(true)`) all of them.
    pub rm: Option<Value>,
    /// Add tags.
    pub add: Option<Value>,
    /// Start a program: its name and then its arguments.
    pub run: Option<Vec<String>>,
    /// Delete the message's file, then its record in the mailbox.
    pub del: Option<bool>,
}

impl Default for Operations {
    fn default() -> (r: Operations)
        ensures
            r.rm is None,
            r.add is None,
            r.run is None,
            r.del is None,
    {
        Operations { rm: None, add: None, run: None, del: None }
    }
}

/// A program to start without waiting for it. It inherits standard output
/// and gets `env` added to its environment.
#[derive(Debug)]
pub struct Command {
    pub program: String,
    pub args: Vec<String>,
    pub env: Vec<(String, String)>,
}

/// One step of applying operations to a message.
#[derive(Debug)]
pub enum Action {
    RemoveTag(String),
    RemoveAllTags,
    AddTag(String),
    /// Start a program and do not wait for it: nothing about how it ends
    /// is reported, and it may still run when later steps delete the file.
    Spawn(Command),
    /// Delete the message's file from disk.
    DeleteFile(String),
    /// Remove the message, known by its file, from the mailbox index.
    Unindex(String),
    /// Stop here and report this error.
    Fail(FilterError),
}

pub enum ActionModel {
    RemoveTag(Seq<char>),
    RemoveAllTags,
    AddTag(Seq<char>),
    Spawn(Seq<char>, Seq<Seq<char>>, Seq<(Seq<char>, Seq<char>)>),
    DeleteFile(Seq<char>),
    Unindex(Seq<char>),
    Fail,
}

pub open spec fn env_of(env: Seq<(String, String)>) -> Seq<(Seq<char>, Seq<char>)> {
    env.map_values(|p: (String, String)| (p.0@, p.1@))
}

impl View for Action {
    type V = ActionModel;

    open spec fn view(&self) -> ActionModel {
        match self {
            Action::RemoveTag(t) => ActionModel::RemoveTag(t@),
            Action::RemoveAllTags => ActionModel::RemoveAllTags,
            Action::AddTag(t) => ActionModel::AddTag(t@),
            Action::Spawn(c) => ActionModel::Spawn(c.program@, texts_of(c.args@), env_of(c.env@)),
            Action::DeleteFile(f) => ActionModel::DeleteFile(f@),
            Action::Unindex(f) => ActionModel::Unindex(f@),
            Action::Fail(_) => ActionModel::Fail,
        }
    }
}

pub open spec fn actions_of(v: Seq<Action>) -> Seq<ActionModel> {
    v.map_values(|a: Action| a@)
}

pub open spec fn removals(rm: Option<ValueModel>) -> Seq<ActionModel> {
    match rm {
        None => seq![],
        Some(ValueModel::Single(t)) => seq![ActionModel::RemoveTag(t)],
        Some(ValueModel::Multiple(ts)) => ts.map_values(|t: Seq<char>| ActionModel::RemoveTag(t)),
        Some(ValueModel::Bool(all)) => if all {
            seq![ActionModel::RemoveAllTags]
        } else {
            seq![]
        },
    }
}

pub open spec fn additions(add: Option<ValueModel>) -> Seq<ActionModel> {
    match add {
        None => seq![],
        Some(ValueModel::Single(t)) => seq![ActionModel::AddTag(t)],
        Some(ValueModel::Multiple(ts)) => ts.map_values(|t: Seq<char>| ActionModel::AddTag(t)),
        Some(ValueModel::Bool(_)) => seq![ActionModel::Fail],
    }
}

/// The environment handed to a started program.
pub open spec fn spawn_env(file: Seq<char>, id: Seq<char>, name: Seq<char>) -> Seq<
    (Seq<char>, Seq<char>),
> {
    seq![
        ("NOTCOAL_FILE_NAME"@, file),
        ("NOTCOAL_MSG_ID"@, id),
        ("NOTCOAL_FILTER_NAME"@, name),
    ]
}

pub open spec fn launches(
    run: Option<Seq<Seq<char>>>,
    file: Seq<char>,
    id: Seq<char>,
    name: Seq<char>,
) -> Seq<ActionModel> {
    match run {
        None => seq![],
        Some(argv) => if argv.len() == 0 {
            seq![ActionModel::Fail]
        } else {
            seq![ActionModel::Spawn(argv[0], argv.drop_first(), spawn_env(file, id, name))]
        },
    }
}

pub open spec fn deletions(del: Option<bool>, file: Seq<char>) -> Seq<ActionModel> {
    if del == Some(true) {
        seq![ActionModel::DeleteFile(file), ActionModel::Unindex(file)]
    } else {
        seq![]
    }
}

/// Every failing step reports an unsupported value.
pub open spec fn fails_unsupported(v: Seq<Action>) -> bool {
    forall|i: int| 0 <= i < v.len() && #[trigger] v[i] is Fail ==> v[i]->Fail_0 is UnsupportedValue
}

pub open spec fn has_fail(s: Seq<ActionModel>) -> bool {
    exists|i: int| 0 <= i < s.len() && #[trigger] s[i] is Fail
}

/// The steps that applying operations takes, in order: removals, additions,
/// the program, the deletion. Nothing is planned after a step that fails.
pub open spec fn plan_of(
    rm: Option<ValueModel>,
    add: Option<ValueModel>,
    run: Option<Seq<Seq<char>>>,
    del: Option<bool>,
    file: Seq<char>,
    id: Seq<char>,
    name: Seq<char>,
) -> Seq<ActionModel> {
    let a = removals(rm) + additions(add);
    if has_fail(additions(add)) {
        a
    } else {
        let b = a + launches(run, file, id, name);
        if has_fail(launches(run, file, id, name)) {
            b
        } else {
            b + deletions(del, file)
        }
    }
}

pub open spec fn value_opt(v: Option<Value>) -> Option<ValueModel> {
    match v {
        Some(x) => Some(x@),
        None => None,
    }
}

pub open spec fn argv_opt(v: Option<Vec<String>>) -> Option<Seq<Seq<char>>> {
    match v {
        Some(x) => Some(texts_of(x@)),
        None => None,
    }
}

fn tag_actions(v: &Value, remove: bool, out: &mut Vec<Action>)
    requires
        fails_unsupported(old(out)@),
    ensures
        fails_unsupported(final(out)@),
        actions_of(final(out)@) == actions_of(old(out)@) + if remove {
            removals(Some(v@))
        } else {
            additions(Some(v@))
        },
{
    let ghost start = old(out)@;
    match v {
        Value::Single(t) => {
            if remove {
                out.push(Action::RemoveTag(t.clone()));
            } else {
                out.push(Action::AddTag(t.clone()));
            }
            assert(actions_of(out@) =~= actions_of(start) + if remove {
                removals(Some(v@))
            } else {
                additions(Some(v@))
            });
        },
        Value::Multiple(ts) => {
            let ghost want = if remove {
                removals(Some(v@))
            } else {
                additions(Some(v@))
            };
            let mut i: usize = 0;
            while i < ts.len()
                invariant
                    i <= ts.len(),
                    want.len() == ts.len(),
                    forall|j: int| 0 <= j < ts.len() ==> #[trigger] want[j] == if remove {
                        ActionModel::RemoveTag(ts@[j]@)
                    } else {
                        ActionModel::AddTag(ts@[j]@)
                    },
                    actions_of(out@) =~= actions_of(start) + want.take(i as int),
                    fails_unsupported(out@),
                decreases ts.len() - i,
            {
                let ghost before = out@;
                let a = if remove {
                    Action::RemoveTag(ts[i].clone())
                } else {
                    Action::AddTag(ts[i].clone())
                };
                assert(a@ == want[i as int]);
                out.push(a);
                assert(actions_of(out@) =~= actions_of(before).push(want[i as int]));
                assert(want.take(i + 1) =~= want.take(i as int).push(want[i as int]));
                i = i + 1;
            }
            assert(want.take(i as int) =~= want);
        },
        Value::Bool(all) => {
            if remove {
                if *all {
                    out.push(Action::RemoveAllTags);
                }
            } else {
                out.push(
                    Action::Fail(
                        FilterError::UnsupportedValue(
                            "'add' operation doesn't support bool types".to_string(),
                        ),
                    ),
                );
            }
            assert(actions_of(out@) =~= actions_of(start) + if remove {
                removals(Some(v@))
            } else {
                additions(Some(v@))
            });
        },
    }
}

impl Operations {
    /// The steps that applying these operations to a message takes, in the
    /// order the caller must carry them out, stopping at the first that
    /// fails. `file` and `id` are the message's file and id, `name` the
    /// filter's name; a started program sees them in its environment, and
    /// it is started before any deletion.
    pub fn plan(&self, file: &String, id: &String, name: &String) -> (r: Vec<Action>)
        ensures
            actions_of(r@) == plan_of(
                value_opt(self.rm),
                value_opt(self.add),
                argv_opt(self.run),
                self.del,
                file@,
                id@,
                name@,
            ),
            fails_unsupported(r@),
    {
        let ghost rm = value_opt(self.rm);
        let ghost add = value_opt(self.add);
        let ghost run = argv_opt(self.run);
        let mut out: Vec<Action> = Vec::new();
        if let Some(v) = &self.rm {
            tag_actions(v, true, &mut out);
        }
        assert(actions_of(out@) =~= removals(rm));
        let mut refused = false;
        if let Some(v) = &self.add {
            tag_actions(v, false, &mut out);
            refused = matches!(v, Value::Bool(_));
        }
        assert(actions_of(out@) =~= removals(rm) + additions(add));
        assert(refused == has_fail(additions(add))) by {
            if refused {
                assert(additions(add)[0] is Fail);
            }
        }
        if refused {
            return out;
        }
        if let Some(argv) = &self.run {
            if argv.len() == 0 {
                out.push(
                    Action::Fail(
                        FilterError::UnsupportedValue("'run' operation needs a program".to_string()),
                    ),
                );
                assert(launches(run, file@, id@, name@)[0] is Fail);
                assert(actions_of(out@) =~= removals(rm) + additions(add) + launches(run, file@, id@, name@));
                return out;
            }
            let mut args: Vec<String> = Vec::new();
            let mut i: usize = 1;
            while i < argv.len()
                invariant
                    1 <= i <= argv.len(),
                    texts_of(args@) =~= texts_of(argv@).subrange(1, i as int),
                decreases argv.len() - i,
            {
                let ghost before = args@;
                args.push(argv[i].clone());
                assert(texts_of(args@) =~= texts_of(before).push(argv@[i as int]@));
                i = i + 1;
            }
            assert(texts_of(argv@).subrange(1, argv.len() as int) =~= texts_of(argv@).drop_first());
            let mut env: Vec<(String, String)> = Vec::new();
            env.push(("NOTCOAL_FILE_NAME".to_string(), file.clone()));
            env.push(("NOTCOAL_MSG_ID".to_string(), id.clone()));
            env.push(("NOTCOAL_FILTER_NAME".to_string(), name.clone()));
            assert(env_of(env@) =~= spawn_env(file@, id@, name@));
            out.push(Action::Spawn(Command { program: argv[0].clone(), args, env }));
        }
        assert(!has_fail(launches(run, file@, id@, name@)));
        assert(actions_of(out@) =~= removals(rm) + additions(add) + launches(run, file@, id@, name@));
        if let Some(del) = &self.del {
            if *del {
                out.push(Action::DeleteFile(file.clone()));
                out.push(Action::Unindex(file.clone()));
            }
        }
        assert(actions_of(out@) =~= removals(rm) + additions(add) + launches(run, file@, id@, name@)
            + deletions(self.del, file@));
        out
    }

    /// Whether carrying out the plan in full removes the message.
    pub fn deletes(&self) -> (r: bool)
        ensures
            r == (self.del == Some(true)),
    {
        match self.del {
            Some(d) => d,
            None => false,
        }
    }
}

/// A flag under `add` always fails, and nothing is planned after it; a
/// `true` flag under `rm` removes all tags first; a `false` flag under `rm`
/// plans nothing, as if `rm` were absent.
pub proof fn lemma_flag_operations(
    rm: Option<ValueModel>,
    add: Option<ValueModel>,
    run: Option<Seq<Seq<char>>>,
    del: Option<bool>,
    file: Seq<char>,
    id: Seq<char>,
    name: Seq<char>,
)
    ensures
        add matches Some(ValueModel::Bool(_)) ==> {
            let p = plan_of(rm, add, run, del, file, id, name);
            p.len() > 0 && p.last() is Fail && has_fail(p)
        },
        plan_of(Some(ValueModel::Bool(true)), add, run, del, file, id, name)[0] is RemoveAllTags,
        plan_of(Some(ValueModel::Bool(false)), add, run, del, file, id, name) == plan_of(
            None,
            add,
            run,
            del,
            file,
            id,
            name,
        ),
{
    let a = additions(add);
    if add matches Some(ValueModel::Bool(_)) {
        assert(a[0] is Fail);
        let p = plan_of(rm, add, run, del, file, id, name);
        assert(p =~= removals(rm) + a);
        assert(p[p.len() - 1] is Fail);
    }
    assert(removals(Some(ValueModel::Bool(false))) =~= removals(None));
    let t = plan_of(Some(ValueModel::Bool(true)), add, run, del, file, id, name);
    assert(t[0] == removals(Some(ValueModel::Bool(true)))[0]);
}

/// When operations both start a program and delete the message (and
/// nothing before fails), the program is started first, and is told the
/// path of the file that is deleted right after.
pub proof fn lemma_run_before_delete(
    rm: Option<ValueModel>,
    add: Option<ValueModel>,
    argv: Seq<Seq<char>>,
    file: Seq<char>,
    id: Seq<char>,
    name: Seq<char>,
)
    requires
        argv.len() > 0,
        !(add matches Some(ValueModel::Bool(_))),
    ensures
        ({
            let p = plan_of(rm, add, Some(argv), Some(true), file, id, name);
            let k = (removals(rm).len() + additions(add).len()) as int;
            &&& p.len() == k + 3
            &&& p[k] == ActionModel::Spawn(argv[0], argv.drop_first(), spawn_env(file, id, name))
            &&& spawn_env(file, id, name)[0] == ("NOTCOAL_FILE_NAME"@, file)
            &&& p[k + 1] == ActionModel::DeleteFile(file)
            &&& p[k + 2] == ActionModel::Unindex(file)
        }),
{
    let a = additions(add);
    assert(!has_fail(a)) by {
        if has_fail(a) {
            let i = choose|i: int| 0 <= i < a.len() && #[trigger] a[i] is Fail;
        }
    }
    let l = launches(Some(argv), file, id, name);
    assert(!has_fail(l)) by {
        if has_fail(l) {
            let i = choose|i: int| 0 <= i < l.len() && #[trigger] l[i] is Fail;
        }
    }
}

} // verus!
