//! Arguments of the market data gateway.

use vstd::prelude::*;

use crate::text::{chars_of, same_text};

verus! {

/// The configuration's path among some arguments: what follows the last
/// `--config`, or an empty path where nothing follows it. Nothing where any
/// other argument is given.
pub open spec fn config_among(args: Seq<Seq<char>>, so_far: Option<Seq<char>>) -> Option<Seq<char>>
    decreases args.len(),
{
    if args.len() == 0 {
        so_far
    } else if args[0] != "--config"@ {
        None
    } else if args.len() == 1 {
        Some(Seq::empty())
    } else {
        config_among(args.skip(2), Some(args[1]))
    }
}

/// The texts of some arguments.
pub open spec fn arguments(args: Seq<String>) -> Seq<Seq<char>> {
    Seq::new(args.len(), |i: int| args[i]@)
}

/// The configuration's path. Nothing where the arguments are not understood
/// or name none.
pub fn config_path(args: &Vec<String>) -> (path: Option<String>)
    ensures
        match path {
            Some(p) => config_among(arguments(args@), None) == Some(p@),
            None => config_among(arguments(args@), None) is None,
        },
{
    let flag: Vec<char> = chars_of("--config");
    let ghost all = arguments(args@);
    let mut path: Option<String> = None;
    let mut i: usize = 0;
    assert(all.skip(0) =~= all);
    while i < args.len()
        invariant
            0 <= i <= args@.len(),
            flag@ == "--config"@,
            all == arguments(args@),
            config_among(all, None) == config_among(
                all.skip(i as int),
                match path {
                    Some(p) => Some(p@),
                    None => None,
                },
            ),
        decreases args@.len() - i,
    {
        let ghost rest = all.skip(i as int);
        assert(rest[0] == args@[i as int]@);
        if !same_text(&chars_of(args[i].as_str()), &flag) {
            return None;
        }
        if args.len() - i == 1 {
            let empty: String = String::new();
            return Some(empty);
        }
        assert(rest[1] == args@[i + 1]@);
        assert(rest.skip(2) =~= all.skip(i + 2));
        path = Some(args[i + 1].as_str().to_owned());
        i = i + 2;
    }
    assert(all.skip(i as int) =~= Seq::empty());
    path
}

/// The path behind the last flag counts; a flag with nothing behind it gives
/// an empty path, and no flag gives none.
pub proof fn law_last_config_counts(
    before: Seq<Seq<char>>,
    path: Seq<char>,
    so_far: Option<Seq<char>>,
)
    requires
        before.len() % 2 == 0,
        forall|i: int|
            0 <= i < before.len() && i % 2 == 0 ==> #[trigger] before[i] == "--config"@,
    ensures
        config_among(before + seq!["--config"@, path], so_far) == Some(path),
        config_among(before + seq!["--config"@], so_far) == Some(Seq::<char>::empty()),
        config_among(Seq::empty(), None) is None,
    decreases before.len(),
{
    let with_path = before + seq!["--config"@, path];
    let bare = before + seq!["--config"@];
    if before.len() == 0 {
        reveal_with_fuel(config_among, 2);
        assert(with_path[0] == "--config"@ && with_path[1] == path);
        assert(with_path.skip(2) =~= Seq::empty());
        assert(bare[0] == "--config"@);
    } else {
        let rest = before.skip(2);
        assert forall|i: int| 0 <= i < rest.len() && i % 2 == 0 implies #[trigger] rest[i]
            == "--config"@ by {
            assert(rest[i] == before[i + 2]);
        }
        law_last_config_counts(rest, path, Some(before[1]));
        assert(before[0] == "--config"@);
        assert(with_path.skip(2) =~= rest + seq!["--config"@, path]);
        assert(bare.skip(2) =~= rest + seq!["--config"@]);
        assert(with_path[0] == before[0] && with_path[1] == before[1]);
        assert(bare[0] == before[0] && bare[1] == before[1]);
    }
}

/// Any other argument in the place of a flag gives nothing.
pub proof fn law_other_arguments_are_not_understood(
    args: Seq<Seq<char>>,
    at: int,
    so_far: Option<Seq<char>>,
)
    requires
        0 <= at < args.len(),
        at % 2 == 0,
        args[at] != "--config"@,
    ensures
        config_among(args, so_far) is None,
    decreases args.len(),
{
    if at > 0 && args[0] == "--config"@ {
        assert(args.skip(2)[at - 2] == args[at]);
        law_other_arguments_are_not_understood(args.skip(2), at - 2, Some(args[1]));
    }
}

/// The path that is taken is the one behind the last flag; where any argument
/// is not understood, or none is given, there is none.
pub proof fn law_path_behind_the_last_flag(
    args: &Vec<String>,
    path: Option<String>,
    before: Seq<Seq<char>>,
    last: Seq<char>,
    at: int,
)
    requires
        call_ensures(config_path, (args,), path),
    ensures
        args@.len() == 0 ==> path is None,
        0 <= at < args@.len() && at % 2 == 0 && args@[at]@ != "--config"@ ==> path is None,
        arguments(args@) == before + seq!["--config"@, last] && before.len() % 2 == 0 && (forall|
            i: int,
        |
            0 <= i < before.len() && i % 2 == 0 ==> #[trigger] before[i] == "--config"@) ==> (
        path matches Some(p) && p@ == last),
{
    let all = arguments(args@);
    if args@.len() == 0 {
        assert(all =~= Seq::empty());
        law_last_config_counts(Seq::empty(), last, None);
    }
    if 0 <= at < args@.len() && at % 2 == 0 && args@[at]@ != "--config"@ {
        law_other_arguments_are_not_understood(all, at, None);
    }
    if all == before + seq!["--config"@, last] && before.len() % 2 == 0 && (forall|i: int|
        0 <= i < before.len() && i % 2 == 0 ==> #[trigger] before[i] == "--config"@) {
        law_last_config_counts(before, last, None);
    }
}

} // verus!
