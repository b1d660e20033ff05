//! The command line.

use vstd::prelude::*;

use crate::text;

verus! {

pub const USAGE: &'static str = "usage: forgejo-actions-orchestrator --config <path>";

#[derive(Debug)]
pub enum Invocation {
    /// Run with the configuration at this path.
    Run(String),
    Usage,
}

pub enum InvocationView {
    Run(Seq<char>),
    Usage,
}

impl View for Invocation {
    type V = InvocationView;

    open spec fn view(&self) -> InvocationView {
        match self {
            Invocation::Run(path) => InvocationView::Run(path@),
            Invocation::Usage => InvocationView::Usage,
        }
    }
}

pub open spec fn asks_for_usage(arg: Seq<char>) -> bool {
    arg == "-h"@ || arg == "--help"@
}

pub open spec fn is_flag(arg: Seq<char>) -> bool {
    arg == "--config"@ || arg == "-c"@
}

/// What the arguments from place `at` on ask for, with the path read so far.
///
/// The last path wins; the first argument that asks for usage, or that cannot be
/// read, ends the reading.
pub open spec fn read_from(args: Seq<Seq<char>>, at: int, path: Option<Seq<char>>) -> Result<
    InvocationView,
    Seq<char>,
>
    decreases args.len() - at,
{
    if at >= args.len() {
        match path {
            Some(path) => Ok(InvocationView::Run(path)),
            None => Err("--config is required\n"@ + USAGE@),
        }
    } else {
        let arg = args[at];
        if asks_for_usage(arg) {
            Ok(InvocationView::Usage)
        } else if is_flag(arg) {
            if at + 1 < args.len() && args[at + 1].len() > 0 {
                read_from(args, at + 2, Some(args[at + 1]))
            } else {
                Err(arg + " needs a path\n"@ + USAGE@)
            }
        } else if "--config="@.is_prefix_of(arg) {
            let value = arg.skip("--config="@.len() as int);
            if value.len() == 0 {
                Err("--config needs a path\n"@ + USAGE@)
            } else {
                read_from(args, at + 1, Some(value))
            }
        } else {
            Err("unexpected argument "@ + arg + "\n"@ + USAGE@)
        }
    }
}

/// Reads the arguments, without the name of the program.
pub fn parse(args: Vec<String>) -> (res: Result<Invocation, String>)
    ensures
        match res {
            Ok(invocation) => read_from(text::texts(args@), 0, None) == Ok::<
                InvocationView,
                Seq<char>,
            >(invocation@),
            Err(why) => read_from(text::texts(args@), 0, None) == Err::<InvocationView, Seq<char>>(
                why@,
            ),
        },
{
    let ghost all = text::texts(args@);
    let mut path: Option<String> = None;
    let mut at: usize = 0;
    while at < args.len()
        invariant
            at <= args@.len() == all.len(),
            all == text::texts(args@),
            read_from(all, 0, None) == read_from(all, at as int, text::optional(path)),
        decreases args@.len() - at,
    {
        let arg = args[at].as_str();
        proof {
            assert(arg@ == all[at as int]);
        }
        if text::same(arg, "-h") || text::same(arg, "--help") {
            return Ok(Invocation::Usage);
        }
        if text::same(arg, "--config") || text::same(arg, "-c") {
            if args.len() - at > 1 && !args[at + 1].as_str().is_empty() {
                proof {
                    assert(args@[at + 1]@ == all[at + 1]);
                }
                path = Some(args[at + 1].clone());
                at += 2;
                continue;
            }
            proof {
                if at + 1 < all.len() {
                    assert(args@[at + 1]@ == all[at + 1]);
                }
            }
            return Err(arg.to_owned().concat(" needs a path\n").concat(USAGE));
        }
        match text::strip_prefix(arg, "--config=") {
            Some(value) => {
                if value.is_empty() {
                    return Err("--config needs a path\n".to_owned().concat(USAGE));
                }
                proof {
                    assert(value@ =~= arg@.skip("--config="@.len() as int));
                }
                path = Some(value.to_owned());
            },
            None => {
                return Err(
                    "unexpected argument ".to_owned().concat(arg).concat("\n").concat(USAGE),
                );
            },
        }
        at += 1;
    }
    match path {
        Some(path) => Ok(Invocation::Run(path)),
        None => Err("--config is required\n".to_owned().concat(USAGE)),
    }
}

/// A path given behind all others is the one that is used.
pub proof fn law_the_last_path_wins(args: Seq<Seq<char>>, path: Seq<char>)
    requires
        path.len() > 0,
        read_from(args, 0, None) matches Ok(invocation) && invocation is Run,
    ensures
        read_from(args.push("--config"@).push(path), 0, None) == Ok::<InvocationView, Seq<char>>(
            InvocationView::Run(path),
        ),
{
    lemma_last_path_wins(args, 0, None, path);
}

proof fn lemma_last_path_wins(
    args: Seq<Seq<char>>,
    at: int,
    known: Option<Seq<char>>,
    path: Seq<char>,
)
    requires
        0 <= at <= args.len(),
        path.len() > 0,
        read_from(args, at, known) matches Ok(invocation) && invocation is Run,
    ensures
        read_from(args.push("--config"@).push(path), at, known) == Ok::<
            InvocationView,
            Seq<char>,
        >(InvocationView::Run(path)),
    decreases args.len() - at,
{
    let longer = args.push("--config"@).push(path);
    reveal_with_fuel(read_from, 3);
    reveal_strlit("-h");
    reveal_strlit("--help");
    reveal_strlit("--config");
    if at >= args.len() {
        assert(longer[at] == "--config"@);
        assert("--config"@[2] != "--help"@[2]);
        assert("--config"@.len() != "-h"@.len());
        assert(longer[at + 1] == path);
    } else {
        let arg = args[at];
        assert(longer[at] == arg);
        if is_flag(arg) {
            assert(longer[at + 1] == args[at + 1]);
            lemma_last_path_wins(args, at + 2, Some(args[at + 1]), path);
        } else {
            lemma_last_path_wins(args, at + 1, Some(arg.skip("--config="@.len() as int)), path);
        }
    }
}

/// The ways to name a path.
pub enum Form {
    /// `--config <path>`
    Long,
    /// `-c <path>`
    Short,
    /// `--config=<path>`
    Joined,
}

/// A path that is named, and how.
pub struct Choice {
    pub form: Form,
    pub path: Seq<char>,
}

/// The arguments that name a path.
pub open spec fn written(choice: Choice) -> Seq<Seq<char>> {
    match choice.form {
        Form::Long => Seq::empty().push("--config"@).push(choice.path),
        Form::Short => Seq::empty().push("-c"@).push(choice.path),
        Form::Joined => Seq::empty().push("--config="@ + choice.path),
    }
}

/// The arguments that name these paths, one behind the other.
pub open spec fn spelled(choices: Seq<Choice>) -> Seq<Seq<char>>
    decreases choices.len(),
{
    if choices.len() == 0 {
        Seq::empty()
    } else {
        written(choices[0]) + spelled(choices.drop_first())
    }
}

/// None of the paths is empty.
pub open spec fn all_named(choices: Seq<Choice>) -> bool {
    forall|i: int| 0 <= i < choices.len() ==> (#[trigger] choices[i]).path.len() > 0
}

/// The arguments name these paths, the last of them `path`, and nothing else.
pub open spec fn names_path(args: Seq<Seq<char>>, choices: Seq<Choice>, path: Seq<char>) -> bool {
    &&& choices.len() > 0
    &&& all_named(choices)
    &&& args == spelled(choices)
    &&& choices.last().path == path
}

/// The arguments name these paths, and then ask for usage; what follows is not read.
pub open spec fn names_usage(args: Seq<Seq<char>>, choices: Seq<Choice>) -> bool {
    &&& all_named(choices)
    &&& spelled(choices).len() < args.len()
    &&& spelled(choices) == args.take(spelled(choices).len() as int)
    &&& asks_for_usage(args[spelled(choices).len() as int])
}

proof fn lemma_words()
    ensures
        !asks_for_usage("--config"@),
        !asks_for_usage("-c"@),
        forall|path: Seq<char>|
            !asks_for_usage(#[trigger] ("--config="@ + path)) && !is_flag("--config="@ + path)
                && "--config="@.is_prefix_of("--config="@ + path) && ("--config="@ + path).skip(
                "--config="@.len() as int,
            ) == path,
{
    reveal_strlit("-h");
    reveal_strlit("--help");
    reveal_strlit("-c");
    reveal_strlit("--config");
    reveal_strlit("--config=");
    assert("--config"@[2] != "--help"@[2]);
    assert("--config"@.len() != "-h"@.len());
    assert("-c"@[1] != "-h"@[1]);
    assert("-c"@.len() != "--help"@.len());
    assert forall|path: Seq<char>|
        !asks_for_usage(#[trigger] ("--config="@ + path)) && !is_flag("--config="@ + path)
            && "--config="@.is_prefix_of("--config="@ + path) && ("--config="@ + path).skip(
            "--config="@.len() as int,
        ) == path by {
        let joined = "--config="@ + path;
        assert(joined[2] == 'c');
        assert("--help"@[2] == 'h');
        assert(joined.len() >= 9);
        assert("--config="@ =~= joined.subrange(0, "--config="@.len() as int));
        assert(joined.skip("--config="@.len() as int) =~= path);
    }
}

/// Paths that are named from a place on are read in a row.
proof fn lemma_read_choices(
    args: Seq<Seq<char>>,
    at: int,
    path: Option<Seq<char>>,
    choices: Seq<Choice>,
)
    requires
        0 <= at,
        at + spelled(choices).len() <= args.len(),
        spelled(choices) == args.subrange(at, at + spelled(choices).len()),
        all_named(choices),
    ensures
        read_from(args, at, path) == read_from(
            args,
            at + spelled(choices).len(),
            if choices.len() == 0 {
                path
            } else {
                Some(choices.last().path)
            },
        ),
    decreases choices.len(),
{
    if choices.len() > 0 {
        let first = choices[0];
        let rest = choices.drop_first();
        let whole = spelled(choices);
        let size = written(first).len() as int;
        lemma_words();
        assert(whole == written(first) + spelled(rest));
        assert(args[at] == whole[0]);
        assert(whole[0] == written(first)[0]);
        assert(first.path.len() > 0);
        if !(first.form is Joined) {
            assert(args[at + 1] == whole[1]);
            assert(whole[1] == written(first)[1]);
        }
        assert(read_from(args, at, path) == read_from(args, at + size, Some(first.path)));
        assert(spelled(rest) =~= args.subrange(at + size, at + size + spelled(rest).len())) by {
            assert forall|i: int| 0 <= i < spelled(rest).len() implies spelled(rest)[i] == args[at
                + size + i] by {
                assert(whole[size + i] == args[at + size + i]);
            }
        }
        assert forall|i: int| 0 <= i < rest.len() implies (#[trigger] rest[i]).path.len() > 0 by {
            assert(rest[i] == choices[i + 1]);
        }
        lemma_read_choices(args, at + size, Some(first.path), rest);
        if rest.len() > 0 {
            assert(rest.last() == choices.last());
        }
    }
}

/// The paths that are named from a place on, up to where the reading ends.
proof fn lemma_choices_of(args: Seq<Seq<char>>, at: int, path: Option<Seq<char>>) -> (choices: Seq<
    Choice,
>)
    requires
        0 <= at <= args.len(),
        read_from(args, at, path) is Ok,
    ensures
        all_named(choices),
        at + spelled(choices).len() <= args.len(),
        spelled(choices) == args.subrange(at, at + spelled(choices).len()),
        ({
            let end = at + spelled(choices).len();
            match read_from(args, at, path)->Ok_0 {
                InvocationView::Run(last) => {
                    &&& end == args.len()
                    &&& choices.len() == 0 ==> path == Some(last)
                    &&& choices.len() > 0 ==> choices.last().path == last
                },
                InvocationView::Usage => end < args.len() && asks_for_usage(args[end as int]),
            }
        }),
    decreases args.len() - at,
{
    if at >= args.len() || asks_for_usage(args[at]) {
        assert(args.subrange(at, at) =~= Seq::<Seq<char>>::empty());
        Seq::empty()
    } else {
        let arg = args[at];
        let first = if arg == "--config"@ {
            Choice { form: Form::Long, path: args[at + 1] }
        } else if arg == "-c"@ {
            Choice { form: Form::Short, path: args[at + 1] }
        } else {
            Choice { form: Form::Joined, path: arg.skip("--config="@.len() as int) }
        };
        let size = written(first).len() as int;
        if first.form is Joined {
            assert(arg.subrange(0, "--config="@.len() as int) == "--config="@);
            assert(arg =~= "--config="@ + first.path);
        }
        let rest = lemma_choices_of(args, at + size, Some(first.path));
        let choices = Seq::empty().push(first) + rest;
        assert(choices.drop_first() =~= rest);
        assert(spelled(choices) == written(first) + spelled(rest));
        assert(spelled(choices) =~= args.subrange(at, at + spelled(choices).len())) by {
            assert forall|i: int| 0 <= i < spelled(choices).len() implies spelled(choices)[i]
                == args[at + i] by {
                if i >= size {
                    assert(spelled(rest)[i - size] == args.subrange(
                        at + size,
                        at + size + spelled(rest).len(),
                    )[i - size]);
                }
            }
        }
        assert forall|i: int| 0 <= i < choices.len() implies (
        #[trigger] choices[i]).path.len() > 0 by {
            if i > 0 {
                assert(choices[i] == rest[i - 1]);
            }
        }
        if rest.len() > 0 {
            assert(choices.last() == rest.last());
        } else {
            assert(choices.last() == first);
        }
        choices
    }
}

/// The daemon is run exactly where the arguments name one or more paths and hold
/// nothing else, and then with the last of them.
pub proof fn law_paths_alone_run(args: Seq<Seq<char>>, path: Seq<char>)
    ensures
        read_from(args, 0, None) == Ok::<InvocationView, Seq<char>>(InvocationView::Run(path))
            <==> exists|choices: Seq<Choice>| names_path(args, choices, path),
{
    if read_from(args, 0, None) == Ok::<InvocationView, Seq<char>>(InvocationView::Run(path)) {
        let choices = lemma_choices_of(args, 0, None);
        assert(args.subrange(0, args.len() as int) =~= args);
        assert(names_path(args, choices, path));
    }
    if exists|choices: Seq<Choice>| names_path(args, choices, path) {
        let choices = choose|choices: Seq<Choice>| names_path(args, choices, path);
        assert(args.subrange(0, args.len() as int) =~= args);
        lemma_read_choices(args, 0, None, choices);
    }
}

/// Usage is told exactly where the arguments ask for it, behind any number of paths.
pub proof fn law_usage_is_asked_for(args: Seq<Seq<char>>)
    ensures
        read_from(args, 0, None) == Ok::<InvocationView, Seq<char>>(InvocationView::Usage)
            <==> exists|choices: Seq<Choice>| names_usage(args, choices),
{
    if read_from(args, 0, None) == Ok::<InvocationView, Seq<char>>(InvocationView::Usage) {
        let choices = lemma_choices_of(args, 0, None);
        let end = spelled(choices).len() as int;
        assert(args.subrange(0, end) =~= args.take(end));
        assert(names_usage(args, choices));
    }
    if exists|choices: Seq<Choice>| names_usage(args, choices) {
        let choices = choose|choices: Seq<Choice>| names_usage(args, choices);
        let end = spelled(choices).len() as int;
        assert(args.subrange(0, end) =~= args.take(end));
        lemma_read_choices(args, 0, None, choices);
    }
}

/// Whatever is wrong with the arguments, the error ends in the usage.
pub proof fn law_errors_end_in_the_usage(args: Seq<Seq<char>>)
    requires
        read_from(args, 0, None) is Err,
    ensures
        USAGE@.is_suffix_of(read_from(args, 0, None)->Err_0),
{
    lemma_errors_end(args, 0, None);
}

proof fn lemma_errors_end(args: Seq<Seq<char>>, at: int, path: Option<Seq<char>>)
    requires
        0 <= at,
        read_from(args, at, path) is Err,
    ensures
        USAGE@.is_suffix_of(read_from(args, at, path)->Err_0),
    decreases args.len() - at,
{
    let why = read_from(args, at, path)->Err_0;
    if at < args.len() {
        let arg = args[at];
        if is_flag(arg) && at + 1 < args.len() && args[at + 1].len() > 0 {
            lemma_errors_end(args, at + 2, Some(args[at + 1]));
        } else if !is_flag(arg) && "--config="@.is_prefix_of(arg) && arg.skip(
            "--config="@.len() as int,
        ).len() > 0 {
            lemma_errors_end(args, at + 1, Some(arg.skip("--config="@.len() as int)));
        } else {
            assert(why.subrange(why.len() - USAGE@.len(), why.len() as int) =~= USAGE@);
        }
    } else {
        assert(why.subrange(why.len() - USAGE@.len(), why.len() as int) =~= USAGE@);
    }
}

/// The program runs with the last path that its arguments name, tells its usage when
/// they ask for it, and refuses everything else.
pub proof fn law_arguments_decide(args: Vec<String>, res: Result<Invocation, String>)
    requires
        call_ensures(parse, (args,), res),
    ensures
        match res {
            Ok(Invocation::Run(path)) => exists|choices: Seq<Choice>|
                names_path(text::texts(args@), choices, path@),
            Ok(Invocation::Usage) => exists|choices: Seq<Choice>|
                names_usage(text::texts(args@), choices),
            Err(_) => {
                &&& forall|choices: Seq<Choice>|
                    !#[trigger] names_usage(text::texts(args@), choices)
                &&& forall|choices: Seq<Choice>, path: Seq<char>|
                    !#[trigger] names_path(text::texts(args@), choices, path)
            },
        },
{
    let all = text::texts(args@);
    law_usage_is_asked_for(all);
    match res {
        Ok(Invocation::Run(path)) => {
            law_paths_alone_run(all, path@);
        },
        Ok(Invocation::Usage) => {},
        Err(_) => {
            assert forall|choices: Seq<Choice>, path: Seq<char>| !#[trigger] names_path(
                all,
                choices,
                path,
            ) by {
                law_paths_alone_run(all, path);
            }
        },
    }
}

/// Behind paths that are named, a flag without a path, and an argument that is none of
/// ours, is complained of by its name, with the usage below it. Without any argument the
/// flag is asked for.
pub proof fn law_arguments_are_complained_of_by_name(
    args: Vec<String>,
    choices: Seq<Choice>,
    rest: Seq<Seq<char>>,
    res: Result<Invocation, String>,
)
    requires
        call_ensures(parse, (args,), res),
        all_named(choices),
        text::texts(args@) == spelled(choices) + rest,
    ensures
        ({
            let usage = "\nusage: forgejo-actions-orchestrator --config <path>"@;
            let bare = rest.len() == 1 || (rest.len() > 1 && rest[1].len() == 0);
            &&& args@.len() == 0 ==> {
                &&& res matches Err(why)
                &&& why@ == "--config is required"@ + usage
            }
            &&& rest.len() > 0 && (rest[0] == "--config"@ || rest[0] == "-c"@) && bare ==> {
                &&& res matches Err(why)
                &&& why@ == rest[0] + " needs a path"@ + usage
            }
            &&& rest.len() > 0 && rest[0] == "--config="@ ==> {
                &&& res matches Err(why)
                &&& why@ == "--config needs a path"@ + usage
            }
            &&& rest.len() > 0 && rest[0] != "--config"@ && rest[0] != "-c"@ && rest[0] != "-h"@
                && rest[0] != "--help"@ && !"--config="@.is_prefix_of(rest[0]) ==> {
                &&& res matches Err(why)
                &&& why@ == "unexpected argument "@ + rest[0] + usage
            }
        }),
{
    let all = text::texts(args@);
    let end = spelled(choices).len() as int;
    let usage = "\nusage: forgejo-actions-orchestrator --config <path>"@;
    assert(all.subrange(0, end) =~= spelled(choices));
    lemma_read_choices(all, 0, None, choices);
    lemma_words();
    lemma_usage();
    if rest.len() > 0 {
        assert(all[end] == rest[0]);
        if rest.len() > 1 {
            assert(all[end + 1] == rest[1]);
        }
        assert(rest[0] + " needs a path\n"@ + USAGE@ =~= rest[0] + (" needs a path\n"@ + USAGE@));
        assert(rest[0] + " needs a path"@ + usage =~= rest[0] + (" needs a path"@ + usage));
        assert("unexpected argument "@ + rest[0] + "\n"@ + USAGE@ =~= "unexpected argument "@
            + rest[0] + ("\n"@ + USAGE@));
        assert("--config="@ + Seq::<char>::empty() =~= "--config="@);
        assert(("--config="@ + Seq::<char>::empty()).skip("--config="@.len() as int)
            == Seq::<char>::empty());
    }
}

proof fn lemma_usage()
    ensures
        "\n"@ + USAGE@ == "\nusage: forgejo-actions-orchestrator --config <path>"@,
        " needs a path\n"@ + USAGE@ == " needs a path"@
            + "\nusage: forgejo-actions-orchestrator --config <path>"@,
        "--config needs a path\n"@ + USAGE@ == "--config needs a path"@
            + "\nusage: forgejo-actions-orchestrator --config <path>"@,
        "--config is required\n"@ + USAGE@ == "--config is required"@
            + "\nusage: forgejo-actions-orchestrator --config <path>"@,
{
    reveal_strlit("\n");
    reveal_strlit("usage: forgejo-actions-orchestrator --config <path>");
    reveal_strlit("\nusage: forgejo-actions-orchestrator --config <path>");
    reveal_strlit(" needs a path\n");
    reveal_strlit(" needs a path");
    reveal_strlit("--config needs a path\n");
    reveal_strlit("--config needs a path");
    reveal_strlit("--config is required\n");
    reveal_strlit("--config is required");
    let whole = "\nusage: forgejo-actions-orchestrator --config <path>"@;
    assert("\n"@ + USAGE@ =~= whole);
    assert(" needs a path\n"@ =~= " needs a path"@ + "\n"@);
    assert("--config needs a path\n"@ =~= "--config needs a path"@ + "\n"@);
    assert("--config is required\n"@ =~= "--config is required"@ + "\n"@);
    assert(" needs a path\n"@ + USAGE@ =~= " needs a path"@ + ("\n"@ + USAGE@));
    assert("--config needs a path\n"@ + USAGE@ =~= "--config needs a path"@ + ("\n"@ + USAGE@));
    assert("--config is required\n"@ + USAGE@ =~= "--config is required"@ + ("\n"@ + USAGE@));
}

} // verus!
