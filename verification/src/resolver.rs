//! Resolution of requested names against a primary and a fallback mapping.

use vstd::prelude::*;
use vstd::string::StringExecFns;
use crate::mapping::Mapping;

verus! {

/// What to do with a requested name that neither mapping holds.
#[derive(Clone, Copy, Debug, PartialEq, Eq, Structural)]
pub struct Policy {
    /// Report the name and go on, in place of giving up.
    pub warn: bool,
    /// Let the name itself through to the output.
    pub pass: bool,
}

impl Policy {
    /// A name that is not found is reported.
    pub open spec fn reports(self) -> bool {
        self.warn || !self.pass
    }

    /// A name that is not found ends the resolution.
    pub open spec fn gives_up(self) -> bool {
        !self.warn && !self.pass
    }
}

/// The text that `name` resolves to: the primary mapping's text where it
/// holds the name, else the fallback's.
pub open spec fn lookup(
    primary: Map<Seq<char>, Seq<char>>,
    fallback: Map<Seq<char>, Seq<char>>,
    name: Seq<char>,
) -> Option<Seq<char>> {
    if primary.contains_key(name) {
        Some(primary[name])
    } else if fallback.contains_key(name) {
        Some(fallback[name])
    } else {
        None
    }
}

/// Neither mapping holds `name`.
pub open spec fn missing(
    primary: Map<Seq<char>, Seq<char>>,
    fallback: Map<Seq<char>, Seq<char>>,
    name: Seq<char>,
) -> bool {
    lookup(primary, fallback, name) is None
}

/// What one requested name adds to the output: its text and the separator;
/// for a name that is not found, the name and the separator where names are
/// let through, and nothing where they are not.
pub open spec fn piece(
    primary: Map<Seq<char>, Seq<char>>,
    fallback: Map<Seq<char>, Seq<char>>,
    name: Seq<char>,
    sep: Seq<char>,
    policy: Policy,
) -> Seq<char> {
    match lookup(primary, fallback, name) {
        Some(text) => text + sep,
        None => if policy.pass {
            name + sep
        } else {
            Seq::empty()
        },
    }
}

/// The pieces of the requested names, one after the other in the order of
/// the request.
pub open spec fn output_of(
    primary: Map<Seq<char>, Seq<char>>,
    fallback: Map<Seq<char>, Seq<char>>,
    names: Seq<Seq<char>>,
    sep: Seq<char>,
    policy: Policy,
) -> Seq<char>
    decreases names.len(),
{
    if names.len() == 0 {
        Seq::empty()
    } else {
        output_of(primary, fallback, names.drop_last(), sep, policy) + piece(
            primary,
            fallback,
            names.last(),
            sep,
            policy,
        )
    }
}

/// The requested names that neither mapping holds, in the order of the
/// request and as often as they were requested.
pub open spec fn missing_names(
    primary: Map<Seq<char>, Seq<char>>,
    fallback: Map<Seq<char>, Seq<char>>,
    names: Seq<Seq<char>>,
) -> Seq<Seq<char>> {
    names.filter(|name: Seq<char>| missing(primary, fallback, name))
}

/// The name at `i` is the first of the request that neither mapping holds.
pub open spec fn is_first_missing(
    primary: Map<Seq<char>, Seq<char>>,
    fallback: Map<Seq<char>, Seq<char>>,
    names: Seq<Seq<char>>,
    i: int,
) -> bool {
    &&& 0 <= i < names.len()
    &&& missing(primary, fallback, names[i])
    &&& forall|j: int| 0 <= j < i ==> !missing(primary, fallback, #[trigger] names[j])
}

/// Some requested name is held by neither mapping.
pub open spec fn some_missing(
    primary: Map<Seq<char>, Seq<char>>,
    fallback: Map<Seq<char>, Seq<char>>,
    names: Seq<Seq<char>>,
) -> bool {
    exists|i: int| 0 <= i < names.len() && missing(primary, fallback, #[trigger] names[i])
}

/// The first requested name that neither mapping holds.
pub open spec fn first_missing(
    primary: Map<Seq<char>, Seq<char>>,
    fallback: Map<Seq<char>, Seq<char>>,
    names: Seq<Seq<char>>,
) -> Seq<char> {
    names[choose|i: int| is_first_missing(primary, fallback, names, i)]
}

/// How a resolution ends, as a mathematical value.
pub enum Outcome {
    /// Every name was dealt with: the text for standard output, and the
    /// names to report as not found.
    Done { output: Seq<char>, not_found: Seq<Seq<char>> },
    /// The name was not found and the policy gives up: nothing is to be
    /// printed but the report of this name.
    Failed { name: Seq<char> },
}

/// The outcome of resolving `names` in order.
///
/// Under a policy that gives up, the first name that is not found ends the
/// resolution and no output is left. Otherwise the output holds the piece of
/// every name, and the names not found are reported where the policy says so.
pub open spec fn resolution(
    primary: Map<Seq<char>, Seq<char>>,
    fallback: Map<Seq<char>, Seq<char>>,
    names: Seq<Seq<char>>,
    sep: Seq<char>,
    policy: Policy,
) -> Outcome {
    if policy.gives_up() && some_missing(primary, fallback, names) {
        Outcome::Failed { name: first_missing(primary, fallback, names) }
    } else {
        Outcome::Done {
            output: output_of(primary, fallback, names, sep, policy),
            not_found: if policy.reports() {
                missing_names(primary, fallback, names)
            } else {
                Seq::empty()
            },
        }
    }
}

/// How a resolution ended.
#[derive(Debug)]
pub enum Resolution {
    /// Every name was dealt with: the text for standard output, and the
    /// names to report as not found, in the order of the request.
    Done { output: String, not_found: Vec<String> },
    /// The name was not found and the policy gives up.
    Failed { name: String },
}

impl View for Resolution {
    type V = Outcome;

    open spec fn view(&self) -> Outcome {
        match self {
            Resolution::Done { output, not_found } => Outcome::Done {
                output: output@,
                not_found: not_found.deep_view(),
            },
            Resolution::Failed { name } => Outcome::Failed { name: name@ },
        }
    }
}

/// Only one place can hold the first name that is not found.
pub proof fn lemma_first_missing_is(
    primary: Map<Seq<char>, Seq<char>>,
    fallback: Map<Seq<char>, Seq<char>>,
    names: Seq<Seq<char>>,
    i: int,
)
    requires
        is_first_missing(primary, fallback, names, i),
    ensures
        some_missing(primary, fallback, names),
        first_missing(primary, fallback, names) == names[i],
{
    let k = choose|k: int| is_first_missing(primary, fallback, names, k);
    if k < i {
        assert(!missing(primary, fallback, names[k]));
    } else if i < k {
        assert(!missing(primary, fallback, names[i]));
    }
}

/// Resolving one name more adds its piece to the output and, if neither
/// mapping holds it, the name to the names not found.
proof fn lemma_resolve_one_more(
    primary: Map<Seq<char>, Seq<char>>,
    fallback: Map<Seq<char>, Seq<char>>,
    names: Seq<Seq<char>>,
    sep: Seq<char>,
    policy: Policy,
    i: int,
)
    requires
        0 <= i < names.len(),
    ensures
        output_of(primary, fallback, names.take(i + 1), sep, policy) == output_of(
            primary,
            fallback,
            names.take(i),
            sep,
            policy,
        ) + piece(primary, fallback, names[i], sep, policy),
        missing_names(primary, fallback, names.take(i + 1)) == if missing(
            primary,
            fallback,
            names[i],
        ) {
            missing_names(primary, fallback, names.take(i)).push(names[i])
        } else {
            missing_names(primary, fallback, names.take(i))
        },
{
    reveal(Seq::filter);
    assert(names.take(i + 1).drop_last() =~= names.take(i));
    assert(names.take(i + 1).last() == names[i]);
}

/// The output of a request is the output of its first part followed by the
/// output of the rest: each name is resolved by itself, in the order of the
/// request.
pub proof fn lemma_output_of_concat(
    primary: Map<Seq<char>, Seq<char>>,
    fallback: Map<Seq<char>, Seq<char>>,
    before: Seq<Seq<char>>,
    after: Seq<Seq<char>>,
    sep: Seq<char>,
    policy: Policy,
)
    ensures
        output_of(primary, fallback, before + after, sep, policy) == output_of(
            primary,
            fallback,
            before,
            sep,
            policy,
        ) + output_of(primary, fallback, after, sep, policy),
    decreases after.len(),
{
    if after.len() == 0 {
        assert(before + after =~= before);
    } else {
        assert((before + after).drop_last() =~= before + after.drop_last());
        assert((before + after).last() == after.last());
        lemma_output_of_concat(primary, fallback, before, after.drop_last(), sep, policy);
    }
}

/// The output of a request for one name is the piece of that name.
pub proof fn lemma_output_of_one(
    primary: Map<Seq<char>, Seq<char>>,
    fallback: Map<Seq<char>, Seq<char>>,
    name: Seq<char>,
    sep: Seq<char>,
    policy: Policy,
)
    ensures
        output_of(primary, fallback, seq![name], sep, policy) == piece(
            primary,
            fallback,
            name,
            sep,
            policy,
        ),
{
    let none = Seq::<Seq<char>>::empty();
    assert(seq![name].drop_last() =~= none);
    assert(seq![name].last() == name);
    assert(output_of(primary, fallback, none, sep, policy) =~= Seq::<char>::empty());
    assert(Seq::<char>::empty() + piece(primary, fallback, name, sep, policy) =~= piece(
        primary,
        fallback,
        name,
        sep,
        policy,
    ));
}

/// The names not found in a request that holds one missing name between two
/// parts: those of the first part, the name, and those of the rest.
pub proof fn lemma_missing_names_around(
    primary: Map<Seq<char>, Seq<char>>,
    fallback: Map<Seq<char>, Seq<char>>,
    before: Seq<Seq<char>>,
    name: Seq<char>,
    after: Seq<Seq<char>>,
)
    requires
        missing(primary, fallback, name),
    ensures
        missing_names(primary, fallback, before + seq![name] + after) == missing_names(
            primary,
            fallback,
            before,
        ).push(name) + missing_names(primary, fallback, after),
{
    let absent = |name: Seq<char>| missing(primary, fallback, name);
    Seq::filter_distributes_over_add(before, seq![name], absent);
    Seq::filter_distributes_over_add(before + seq![name], after, absent);
    assert(seq![name].filter(absent) =~= seq![name]) by {
        reveal_with_fuel(Seq::filter, 2);
        assert(seq![name].drop_last() =~= Seq::<Seq<char>>::empty());
        assert(seq![name].last() == name);
    }
    assert(before.filter(absent) + seq![name] =~= before.filter(absent).push(name));
}

/// Precedence: a name that the primary mapping holds resolves to the
/// primary's text, whatever the fallback holds under it.
pub proof fn lemma_primary_takes_precedence(
    primary: Map<Seq<char>, Seq<char>>,
    fallback: Map<Seq<char>, Seq<char>>,
    name: Seq<char>,
    sep: Seq<char>,
    policy: Policy,
)
    requires
        primary.contains_key(name),
    ensures
        lookup(primary, fallback, name) == Some(primary[name]),
        piece(primary, fallback, name, sep, policy) == primary[name] + sep,
        resolution(primary, fallback, seq![name], sep, policy) == (Outcome::Done {
            output: primary[name] + sep,
            not_found: Seq::empty(),
        }),
{
    let names = seq![name];
    lemma_output_of_one(primary, fallback, name, sep, policy);
    assert(!some_missing(primary, fallback, names)) by {
        if some_missing(primary, fallback, names) {
            let i = choose|i: int|
                0 <= i < names.len() && missing(primary, fallback, #[trigger] names[i]);
            assert(names[i] == name);
        }
    }
    assert(missing_names(primary, fallback, names) =~= Seq::<Seq<char>>::empty()) by {
        reveal_with_fuel(Seq::filter, 2);
        assert(names.drop_last() =~= Seq::<Seq<char>>::empty());
        assert(names.last() == name);
    }
}

/// Where the primary mapping holds every requested name, no name is
/// missing and the output does not depend on the fallback.
proof fn lemma_primary_names_found(
    primary: Map<Seq<char>, Seq<char>>,
    fallback: Map<Seq<char>, Seq<char>>,
    names: Seq<Seq<char>>,
    sep: Seq<char>,
    policy: Policy,
)
    requires
        forall|i: int| 0 <= i < names.len() ==> primary.contains_key(#[trigger] names[i]),
    ensures
        missing_names(primary, fallback, names) == Seq::<Seq<char>>::empty(),
        output_of(primary, fallback, names, sep, policy) == output_of(
            primary,
            Map::empty(),
            names,
            sep,
            policy,
        ),
    decreases names.len(),
{
    reveal(Seq::filter);
    if names.len() > 0 {
        let rest = names.drop_last();
        assert forall|i: int| 0 <= i < rest.len() implies primary.contains_key(
            #[trigger] rest[i],
        ) by {
            assert(rest[i] == names[i]);
        }
        lemma_primary_names_found(primary, fallback, rest, sep, policy);
        assert(primary.contains_key(names[names.len() - 1]));
    }
}

/// A request whose names the primary mapping all holds is resolved from the
/// primary alone: it does not fail, nothing is reported, and the outcome is
/// the same with any fallback as with an empty one, under every policy.
pub proof fn lemma_primary_names_need_no_fallback(
    primary: Map<Seq<char>, Seq<char>>,
    fallback: Map<Seq<char>, Seq<char>>,
    names: Seq<Seq<char>>,
    sep: Seq<char>,
    policy: Policy,
)
    requires
        forall|i: int| 0 <= i < names.len() ==> primary.contains_key(#[trigger] names[i]),
    ensures
        resolution(primary, fallback, names, sep, policy) == resolution(
            primary,
            Map::empty(),
            names,
            sep,
            policy,
        ),
        resolution(primary, fallback, names, sep, policy) == (Outcome::Done {
            output: output_of(primary, Map::empty(), names, sep, policy),
            not_found: Seq::empty(),
        }),
{
    let empty = Map::<Seq<char>, Seq<char>>::empty();
    assert(!some_missing(primary, fallback, names));
    assert(!some_missing(primary, empty, names));
    lemma_primary_names_found(primary, fallback, names, sep, policy);
    lemma_primary_names_found(primary, empty, names, sep, policy);
}

/// The policy that neither warns nor passes: a request with a name that is
/// not found fails on the first such name, and nothing is left to print, for
/// that name or any other.
pub proof fn lemma_policy_give_up(
    primary: Map<Seq<char>, Seq<char>>,
    fallback: Map<Seq<char>, Seq<char>>,
    names: Seq<Seq<char>>,
    sep: Seq<char>,
    i: int,
)
    requires
        is_first_missing(primary, fallback, names, i),
    ensures
        resolution(primary, fallback, names, sep, Policy { warn: false, pass: false }) == (
        Outcome::Failed { name: names[i] }),
{
    lemma_first_missing_is(primary, fallback, names, i);
}

/// The policy that warns and does not pass: a name that is not found is
/// reported and adds nothing to the output; the names before and after it
/// are resolved as they are without it, and the resolution does not fail.
pub proof fn lemma_policy_warn(
    primary: Map<Seq<char>, Seq<char>>,
    fallback: Map<Seq<char>, Seq<char>>,
    before: Seq<Seq<char>>,
    name: Seq<char>,
    after: Seq<Seq<char>>,
    sep: Seq<char>,
)
    requires
        missing(primary, fallback, name),
    ensures
        ({
            let policy = Policy { warn: true, pass: false };
            resolution(primary, fallback, before + seq![name] + after, sep, policy) == (
            Outcome::Done {
                output: output_of(primary, fallback, before, sep, policy) + output_of(
                    primary,
                    fallback,
                    after,
                    sep,
                    policy,
                ),
                not_found: missing_names(primary, fallback, before).push(name) + missing_names(
                    primary,
                    fallback,
                    after,
                ),
            })
        }),
{
    let policy = Policy { warn: true, pass: false };
    lemma_output_of_concat(primary, fallback, before, seq![name], sep, policy);
    lemma_output_of_concat(primary, fallback, before + seq![name], after, sep, policy);
    lemma_output_of_one(primary, fallback, name, sep, policy);
    lemma_missing_names_around(primary, fallback, before, name, after);
    assert(output_of(primary, fallback, before, sep, policy) + Seq::<char>::empty()
        =~= output_of(primary, fallback, before, sep, policy));
}

/// The policy that passes and does not warn: a name that is not found goes
/// to the output itself, followed by the separator, between the output of
/// the names before and after it; nothing is reported.
pub proof fn lemma_policy_pass(
    primary: Map<Seq<char>, Seq<char>>,
    fallback: Map<Seq<char>, Seq<char>>,
    before: Seq<Seq<char>>,
    name: Seq<char>,
    after: Seq<Seq<char>>,
    sep: Seq<char>,
)
    requires
        missing(primary, fallback, name),
    ensures
        ({
            let policy = Policy { warn: false, pass: true };
            resolution(primary, fallback, before + seq![name] + after, sep, policy) == (
            Outcome::Done {
                output: output_of(primary, fallback, before, sep, policy) + (name + sep)
                    + output_of(primary, fallback, after, sep, policy),
                not_found: Seq::empty(),
            })
        }),
{
    let policy = Policy { warn: false, pass: true };
    lemma_output_of_concat(primary, fallback, before, seq![name], sep, policy);
    lemma_output_of_concat(primary, fallback, before + seq![name], after, sep, policy);
    lemma_output_of_one(primary, fallback, name, sep, policy);
}

/// The policy that both warns and passes: a name that is not found goes to
/// the output itself, followed by the separator, and is reported as well.
pub proof fn lemma_policy_warn_and_pass(
    primary: Map<Seq<char>, Seq<char>>,
    fallback: Map<Seq<char>, Seq<char>>,
    before: Seq<Seq<char>>,
    name: Seq<char>,
    after: Seq<Seq<char>>,
    sep: Seq<char>,
)
    requires
        missing(primary, fallback, name),
    ensures
        ({
            let policy = Policy { warn: true, pass: true };
            resolution(primary, fallback, before + seq![name] + after, sep, policy) == (
            Outcome::Done {
                output: output_of(primary, fallback, before, sep, policy) + (name + sep)
                    + output_of(primary, fallback, after, sep, policy),
                not_found: missing_names(primary, fallback, before).push(name) + missing_names(
                    primary,
                    fallback,
                    after,
                ),
            })
        }),
{
    let policy = Policy { warn: true, pass: true };
    lemma_output_of_concat(primary, fallback, before, seq![name], sep, policy);
    lemma_output_of_concat(primary, fallback, before + seq![name], after, sep, policy);
    lemma_output_of_one(primary, fallback, name, sep, policy);
    lemma_missing_names_around(primary, fallback, before, name, after);
}

/// Resolves `names` in order against `spit`, and against `global` where
/// `spit` lacks a name, putting `sep` after each piece of output.
pub fn spit_out(
    spit: &Mapping,
    global: &Mapping,
    names: &Vec<String>,
    sep: &str,
    opts: Policy,
) -> (r: Resolution)
    ensures
        r@ == resolution(spit@, global@, names.deep_view(), sep@, opts),
{
    let ghost wanted = names.deep_view();
    let mut output = String::new();
    let mut not_found: Vec<String> = Vec::new();
    let mut i: usize = 0;
    proof {
        reveal(Seq::filter);
    }
    while i < names.len()
        invariant
            i <= names@.len(),
            wanted == names.deep_view(),
            wanted.len() == names@.len(),
            output@ == output_of(spit@, global@, wanted.take(i as int), sep@, opts),
            not_found.deep_view() == if opts.reports() {
                missing_names(spit@, global@, wanted.take(i as int))
            } else {
                Seq::empty()
            },
            opts.gives_up() ==> forall|j: int|
                0 <= j < i ==> !missing(spit@, global@, #[trigger] wanted[j]),
        decreases names@.len() - i,
    {
        let name = &names[i];
        proof {
            lemma_resolve_one_more(spit@, global@, wanted, sep@, opts, i as int);
        }
        let found = match spit.get(name.as_str()) {
            Some(text) => Some(text),
            None => global.get(name.as_str()),
        };
        match found {
            Some(text) => {
                output.append(text.as_str());
                output.append(sep);
            },
            None => {
                if opts.pass {
                    output.append(name.as_str());
                    output.append(sep);
                    if opts.warn {
                        not_found.push(name.clone());
                    }
                } else {
                    if !opts.warn {
                        proof {
                            lemma_first_missing_is(spit@, global@, wanted, i as int);
                        }
                        return Resolution::Failed { name: name.clone() };
                    }
                    not_found.push(name.clone());
                }
            },
        }
        i = i + 1;
    }
    proof {
        assert(wanted.take(i as int) =~= wanted);
    }
    Resolution::Done { output, not_found }
}

} // verus!
