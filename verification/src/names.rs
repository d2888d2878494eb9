//! The names of types: builtin, canonical, bare and mangled.

use vstd::prelude::*;
use crate::text::{
    after_last_dot, concat, decimal, digit, dot_join, dots_to_underscores, dotted, join_text, joined,
    last_segment, last_segment_at, number_text, text_eq, underscored,
};

verus! {

/// The canonical form of a builtin type's bare name; any other name is its own.
pub open spec fn canonical_type_name(name: Seq<char>) -> Seq<char> {
    if name == "Int"@ {
        "Std.Int.Int"@
    } else if name == "Float"@ {
        "Std.Float.Float"@
    } else if name == "String"@ {
        "Std.String.String"@
    } else if name == "Bool"@ {
        "Std.Bool.Bool"@
    } else if name == "Unit"@ {
        "Std.Base.Unit"@
    } else if name == "List"@ {
        "Std.List.List"@
    } else if name == "Dict"@ {
        "Std.Dict.Dict"@
    } else if name == "Set"@ {
        "Std.Set.Set"@
    } else if name == "BitString"@ {
        "Std.BitString.BitString"@
    } else if name == "Tuple"@ {
        "Std.Base.Tuple"@
    } else if name == "Handler"@ {
        "Std.Base.Handler"@
    } else if name == "Maybe"@ {
        "Std.Maybe.Maybe"@
    } else if name == "Result"@ {
        "Std.Result.Result"@
    } else if name == "Ordering"@ {
        "Std.Base.Ordering"@
    } else if name == "Pid"@ {
        "Std.Actor.Pid"@
    } else if name == "ExitReason"@ {
        "Std.Actor.ExitReason"@
    } else {
        name
    }
}

/// The names of the builtin types.
pub open spec fn is_builtin_bare(name: Seq<char>) -> bool {
    ||| name == "Int"@
    ||| name == "Float"@
    ||| name == "String"@
    ||| name == "Bool"@
    ||| name == "Unit"@
    ||| name == "List"@
    ||| name == "Dict"@
    ||| name == "Set"@
    ||| name == "BitString"@
    ||| name == "Tuple"@
    ||| name == "Handler"@
    ||| name == "Maybe"@
    ||| name == "Result"@
    ||| name == "Ordering"@
    ||| name == "Pid"@
    ||| name == "ExitReason"@
}

/// The canonical names of the builtin types.
pub open spec fn is_builtin_name(name: Seq<char>) -> bool {
    ||| name == "Std.Int.Int"@
    ||| name == "Std.Float.Float"@
    ||| name == "Std.String.String"@
    ||| name == "Std.Bool.Bool"@
    ||| name == "Std.Base.Unit"@
    ||| name == "Std.List.List"@
    ||| name == "Std.Dict.Dict"@
    ||| name == "Std.Set.Set"@
    ||| name == "Std.BitString.BitString"@
    ||| name == "Std.Base.Tuple"@
    ||| name == "Std.Base.Handler"@
    ||| name == "Std.Maybe.Maybe"@
    ||| name == "Std.Result.Result"@
    ||| name == "Std.Base.Ordering"@
    ||| name == "Std.Actor.Pid"@
    ||| name == "Std.Actor.ExitReason"@
}

/// Resolve a bare builtin type name to its canonical form.
/// Returns the input unchanged if it's not a known builtin.
pub fn canonicalize_type_name<'a>(name: &'a str) -> (r: &'a str)
    ensures
        r@ == canonical_type_name(name@),
{
    if text_eq(name, "Int") {
        "Std.Int.Int"
    } else if text_eq(name, "Float") {
        "Std.Float.Float"
    } else if text_eq(name, "String") {
        "Std.String.String"
    } else if text_eq(name, "Bool") {
        "Std.Bool.Bool"
    } else if text_eq(name, "Unit") {
        "Std.Base.Unit"
    } else if text_eq(name, "List") {
        "Std.List.List"
    } else if text_eq(name, "Dict") {
        "Std.Dict.Dict"
    } else if text_eq(name, "Set") {
        "Std.Set.Set"
    } else if text_eq(name, "BitString") {
        "Std.BitString.BitString"
    } else if text_eq(name, "Tuple") {
        "Std.Base.Tuple"
    } else if text_eq(name, "Handler") {
        "Std.Base.Handler"
    } else if text_eq(name, "Maybe") {
        "Std.Maybe.Maybe"
    } else if text_eq(name, "Result") {
        "Std.Result.Result"
    } else if text_eq(name, "Ordering") {
        "Std.Base.Ordering"
    } else if text_eq(name, "Pid") {
        "Std.Actor.Pid"
    } else if text_eq(name, "ExitReason") {
        "Std.Actor.ExitReason"
    } else {
        name
    }
}

/// Check if a name is the canonical form of a known builtin type.
pub fn is_builtin_canonical(name: &str) -> (r: bool)
    ensures
        r == is_builtin_name(name@),
{
    text_eq(name, "Std.Int.Int")
        || text_eq(name, "Std.Float.Float")
        || text_eq(name, "Std.String.String")
        || text_eq(name, "Std.Bool.Bool")
        || text_eq(name, "Std.Base.Unit")
        || text_eq(name, "Std.List.List")
        || text_eq(name, "Std.Dict.Dict")
        || text_eq(name, "Std.Set.Set")
        || text_eq(name, "Std.BitString.BitString")
        || text_eq(name, "Std.Base.Tuple")
        || text_eq(name, "Std.Base.Handler")
        || text_eq(name, "Std.Maybe.Maybe")
        || text_eq(name, "Std.Result.Result")
        || text_eq(name, "Std.Base.Ordering")
        || text_eq(name, "Std.Actor.Pid")
        || text_eq(name, "Std.Actor.ExitReason")
}

/// The builtin names, character by character: a bare one has no dot, and a
/// canonical one ends in the bare one.
proof fn builtin_name_facts()
    ensures
        !"Int"@.contains('.'),
        canonical_type_name("Int"@) == "Std.Int.Int"@,
        last_segment("Std.Int.Int"@) == "Int"@,
        "Std.Int.Int"@.contains('.'),
        !"Float"@.contains('.'),
        canonical_type_name("Float"@) == "Std.Float.Float"@,
        last_segment("Std.Float.Float"@) == "Float"@,
        "Std.Float.Float"@.contains('.'),
        !"String"@.contains('.'),
        canonical_type_name("String"@) == "Std.String.String"@,
        last_segment("Std.String.String"@) == "String"@,
        "Std.String.String"@.contains('.'),
        !"Bool"@.contains('.'),
        canonical_type_name("Bool"@) == "Std.Bool.Bool"@,
        last_segment("Std.Bool.Bool"@) == "Bool"@,
        "Std.Bool.Bool"@.contains('.'),
        !"Unit"@.contains('.'),
        canonical_type_name("Unit"@) == "Std.Base.Unit"@,
        last_segment("Std.Base.Unit"@) == "Unit"@,
        "Std.Base.Unit"@.contains('.'),
        !"List"@.contains('.'),
        canonical_type_name("List"@) == "Std.List.List"@,
        last_segment("Std.List.List"@) == "List"@,
        "Std.List.List"@.contains('.'),
        !"Dict"@.contains('.'),
        canonical_type_name("Dict"@) == "Std.Dict.Dict"@,
        last_segment("Std.Dict.Dict"@) == "Dict"@,
        "Std.Dict.Dict"@.contains('.'),
        !"Set"@.contains('.'),
        canonical_type_name("Set"@) == "Std.Set.Set"@,
        last_segment("Std.Set.Set"@) == "Set"@,
        "Std.Set.Set"@.contains('.'),
        !"BitString"@.contains('.'),
        canonical_type_name("BitString"@) == "Std.BitString.BitString"@,
        last_segment("Std.BitString.BitString"@) == "BitString"@,
        "Std.BitString.BitString"@.contains('.'),
        !"Tuple"@.contains('.'),
        canonical_type_name("Tuple"@) == "Std.Base.Tuple"@,
        last_segment("Std.Base.Tuple"@) == "Tuple"@,
        "Std.Base.Tuple"@.contains('.'),
        !"Handler"@.contains('.'),
        canonical_type_name("Handler"@) == "Std.Base.Handler"@,
        last_segment("Std.Base.Handler"@) == "Handler"@,
        "Std.Base.Handler"@.contains('.'),
        !"Maybe"@.contains('.'),
        canonical_type_name("Maybe"@) == "Std.Maybe.Maybe"@,
        last_segment("Std.Maybe.Maybe"@) == "Maybe"@,
        "Std.Maybe.Maybe"@.contains('.'),
        !"Result"@.contains('.'),
        canonical_type_name("Result"@) == "Std.Result.Result"@,
        last_segment("Std.Result.Result"@) == "Result"@,
        "Std.Result.Result"@.contains('.'),
        !"Ordering"@.contains('.'),
        canonical_type_name("Ordering"@) == "Std.Base.Ordering"@,
        last_segment("Std.Base.Ordering"@) == "Ordering"@,
        "Std.Base.Ordering"@.contains('.'),
        !"Pid"@.contains('.'),
        canonical_type_name("Pid"@) == "Std.Actor.Pid"@,
        last_segment("Std.Actor.Pid"@) == "Pid"@,
        "Std.Actor.Pid"@.contains('.'),
        !"ExitReason"@.contains('.'),
        canonical_type_name("ExitReason"@) == "Std.Actor.ExitReason"@,
        last_segment("Std.Actor.ExitReason"@) == "ExitReason"@,
        "Std.Actor.ExitReason"@.contains('.'),
{
    reveal_strlit("Int");
    reveal_strlit("Std.Int.Int");
    reveal_strlit("Float");
    reveal_strlit("Std.Float.Float");
    reveal_strlit("String");
    reveal_strlit("Std.String.String");
    reveal_strlit("Bool");
    reveal_strlit("Std.Bool.Bool");
    reveal_strlit("Unit");
    reveal_strlit("Std.Base.Unit");
    reveal_strlit("List");
    reveal_strlit("Std.List.List");
    reveal_strlit("Dict");
    reveal_strlit("Std.Dict.Dict");
    reveal_strlit("Set");
    reveal_strlit("Std.Set.Set");
    reveal_strlit("BitString");
    reveal_strlit("Std.BitString.BitString");
    reveal_strlit("Tuple");
    reveal_strlit("Std.Base.Tuple");
    reveal_strlit("Handler");
    reveal_strlit("Std.Base.Handler");
    reveal_strlit("Maybe");
    reveal_strlit("Std.Maybe.Maybe");
    reveal_strlit("Result");
    reveal_strlit("Std.Result.Result");
    reveal_strlit("Ordering");
    reveal_strlit("Std.Base.Ordering");
    reveal_strlit("Pid");
    reveal_strlit("Std.Actor.Pid");
    reveal_strlit("ExitReason");
    reveal_strlit("Std.Actor.ExitReason");
    assert("Int"@[0] == 'I');
    assert("Float"@[0] == 'F');
    assert("String"@[0] == 'S');
    assert("Bool"@[0] == 'B');
    assert("Unit"@[0] == 'U');
    assert("List"@[0] == 'L');
    assert("Dict"@[0] == 'D');
    assert("Set"@[0] == 'S');
    assert("BitString"@[0] == 'B');
    assert("Tuple"@[0] == 'T');
    assert("Handler"@[0] == 'H');
    assert("Maybe"@[0] == 'M');
    assert("Result"@[0] == 'R');
    assert("Ordering"@[0] == 'O');
    assert("Pid"@[0] == 'P');
    assert("ExitReason"@[0] == 'E');
    last_segment_at("Std.Int.Int"@, 8);
    assert("Std.Int.Int"@.skip(8) =~= "Int"@);
    assert("Std.Int.Int"@[7] == '.');
    last_segment_at("Std.Float.Float"@, 10);
    assert("Std.Float.Float"@.skip(10) =~= "Float"@);
    assert("Std.Float.Float"@[9] == '.');
    last_segment_at("Std.String.String"@, 11);
    assert("Std.String.String"@.skip(11) =~= "String"@);
    assert("Std.String.String"@[10] == '.');
    last_segment_at("Std.Bool.Bool"@, 9);
    assert("Std.Bool.Bool"@.skip(9) =~= "Bool"@);
    assert("Std.Bool.Bool"@[8] == '.');
    last_segment_at("Std.Base.Unit"@, 9);
    assert("Std.Base.Unit"@.skip(9) =~= "Unit"@);
    assert("Std.Base.Unit"@[8] == '.');
    last_segment_at("Std.List.List"@, 9);
    assert("Std.List.List"@.skip(9) =~= "List"@);
    assert("Std.List.List"@[8] == '.');
    last_segment_at("Std.Dict.Dict"@, 9);
    assert("Std.Dict.Dict"@.skip(9) =~= "Dict"@);
    assert("Std.Dict.Dict"@[8] == '.');
    last_segment_at("Std.Set.Set"@, 8);
    assert("Std.Set.Set"@.skip(8) =~= "Set"@);
    assert("Std.Set.Set"@[7] == '.');
    last_segment_at("Std.BitString.BitString"@, 14);
    assert("Std.BitString.BitString"@.skip(14) =~= "BitString"@);
    assert("Std.BitString.BitString"@[13] == '.');
    last_segment_at("Std.Base.Tuple"@, 9);
    assert("Std.Base.Tuple"@.skip(9) =~= "Tuple"@);
    assert("Std.Base.Tuple"@[8] == '.');
    last_segment_at("Std.Base.Handler"@, 9);
    assert("Std.Base.Handler"@.skip(9) =~= "Handler"@);
    assert("Std.Base.Handler"@[8] == '.');
    last_segment_at("Std.Maybe.Maybe"@, 10);
    assert("Std.Maybe.Maybe"@.skip(10) =~= "Maybe"@);
    assert("Std.Maybe.Maybe"@[9] == '.');
    last_segment_at("Std.Result.Result"@, 11);
    assert("Std.Result.Result"@.skip(11) =~= "Result"@);
    assert("Std.Result.Result"@[10] == '.');
    last_segment_at("Std.Base.Ordering"@, 9);
    assert("Std.Base.Ordering"@.skip(9) =~= "Ordering"@);
    assert("Std.Base.Ordering"@[8] == '.');
    last_segment_at("Std.Actor.Pid"@, 10);
    assert("Std.Actor.Pid"@.skip(10) =~= "Pid"@);
    assert("Std.Actor.Pid"@[9] == '.');
    last_segment_at("Std.Actor.ExitReason"@, 10);
    assert("Std.Actor.ExitReason"@.skip(10) =~= "ExitReason"@);
    assert("Std.Actor.ExitReason"@[9] == '.');
}

/// The canonical names of the builtin types that the checker itself makes.
pub proof fn builtin_canonical_names()
    ensures
        canonical_type_name("Int"@) == "Std.Int.Int"@,
        canonical_type_name("Float"@) == "Std.Float.Float"@,
        canonical_type_name("String"@) == "Std.String.String"@,
        canonical_type_name("Bool"@) == "Std.Bool.Bool"@,
        canonical_type_name("Unit"@) == "Std.Base.Unit"@,
        canonical_type_name("List"@) == "Std.List.List"@,
        canonical_type_name("Tuple"@) == "Std.Base.Tuple"@,
        canonical_type_name("Handler"@) == "Std.Base.Handler"@,
{
    builtin_name_facts();
}

#[verifier::spinoff_prover]
#[verifier::rlimit(50)]
proof fn dotted_names_are_fixed(name: Seq<char>)
    requires
        name.contains('.'),
    ensures
        canonical_type_name(name) == name,
{
    builtin_name_facts();
}

/// A canonical name stays as it is; a builtin's bare name becomes a canonical
/// builtin name, whose bare name it is again.
#[verifier::spinoff_prover]
#[verifier::rlimit(50)]
pub proof fn canonical_names_are_fixed(name: Seq<char>)
    ensures
        canonical_type_name(canonical_type_name(name)) == canonical_type_name(name),
        is_builtin_bare(name) ==> is_builtin_name(canonical_type_name(name)),
        is_builtin_bare(name) ==> last_segment(canonical_type_name(name)) == name,
        !is_builtin_bare(name) ==> canonical_type_name(name) == name,
{
    builtin_name_facts();
    if is_builtin_bare(name) {
        dotted_names_are_fixed(canonical_type_name(name));
    }
}

/// Get the bare (user-facing) name from a canonical type name.
/// `"Std.Int.Int"` gives `"Int"`, `"MyMod.Foo"` gives `"Foo"`.
pub fn bare_type_name<'a>(canonical: &'a str) -> (r: &'a str)
    ensures
        r@ == last_segment(canonical@),
{
    after_last_dot(canonical)
}

/// Mangle a canonical type name for use in Erlang identifiers:
/// `"Std.Int.Int"` gives `"Std_Int_Int"`.
pub fn mangle_type_name(canonical: &str) -> (r: String)
    ensures
        r@ == underscored(canonical@),
{
    dots_to_underscores(canonical)
}

/// Tuples of different arity are distinct types that share one canonical name,
/// so the arity is put behind it; other names stay as they are.
pub open spec fn keyed_target(canonical: Seq<char>, arity: nat) -> Seq<char> {
    if canonical == "Std.Base.Tuple"@ {
        dotted(canonical, decimal(arity))
    } else {
        canonical
    }
}

pub fn arity_keyed_target_name(canonical: &str, arity: usize) -> (r: String)
    ensures
        r@ == keyed_target(canonical@, arity as nat),
{
    proof {
        builtin_name_facts();
    }
    if text_eq(canonical, canonicalize_type_name("Tuple")) {
        let n = number_text(arity as u64);
        dot_join(canonical, n.as_str())
    } else {
        canonical.to_owned()
    }
}

/// Two tuple types have the same key just where they have the same arity.
pub proof fn tuples_are_keyed_by_arity(m: nat, n: nat)
    ensures
        keyed_target("Std.Base.Tuple"@, m) == keyed_target("Std.Base.Tuple"@, n) <==> m == n,
{
    let t = "Std.Base.Tuple"@;
    if keyed_target(t, m) == keyed_target(t, n) {
        assert(dotted(t, decimal(m)).skip((t.len() + 1) as int) =~= decimal(m));
        assert(dotted(t, decimal(n)).skip((t.len() + 1) as int) =~= decimal(n));
        decimal_is_injective(m, n);
    }
}

proof fn decimal_is_injective(m: nat, n: nat)
    requires
        decimal(m) == decimal(n),
    ensures
        m == n,
    decreases m,
{
    decimal_ends_in_last_digit(m);
    decimal_ends_in_last_digit(n);
    assert(m % 10 == n % 10);
    if m < 10 {
        assert(decimal(m).len() == 1);
        if n >= 10 {
            decimal_is_not_empty(n / 10);
        }
    } else if n < 10 {
        decimal_is_not_empty(m / 10);
    } else {
        assert(decimal(m).drop_last() =~= decimal(m / 10));
        assert(decimal(n).drop_last() =~= decimal(n / 10));
        decimal_is_injective(m / 10, n / 10);
    }
}

proof fn decimal_ends_in_last_digit(n: nat)
    ensures
        decimal(n).last() == digit(n % 10),
{
    if n < 10 {
        assert(n % 10 == n);
    }
}

proof fn decimal_is_not_empty(n: nat)
    ensures
        decimal(n).len() > 0,
    decreases n,
{
}

/// The name of the dictionary constructor for an impl.
pub open spec fn dict_name(
    canonical_trait: Seq<char>,
    trait_type_args: Seq<Seq<char>>,
    erlang_module: Seq<char>,
    target_type: Seq<char>,
) -> Seq<char> {
    let args = if trait_type_args.len() == 0 {
        Seq::empty()
    } else {
        "_"@ + joined(trait_type_args, "_"@)
    };
    let module = if erlang_module.len() == 0 {
        Seq::empty()
    } else {
        erlang_module + "_"@
    };
    "__dict_"@ + underscored(canonical_trait) + args + "_"@ + module + underscored(target_type)
}

/// Build a dict constructor name from canonical trait name, type args, erlang module, and target type.
pub fn make_dict_name(
    canonical_trait: &str,
    trait_type_args: &Vec<String>,
    erlang_module: &str,
    target_type: &str,
) -> (r: String)
    ensures
        r@ == dict_name(
            canonical_trait@,
            trait_type_args.deep_view(),
            erlang_module@,
            target_type@,
        ),
{
    let mut r = concat("__dict_", mangle_type_name(canonical_trait).as_str());
    assert(trait_type_args.deep_view().len() == trait_type_args.len());
    if trait_type_args.len() != 0 {
        r.append("_");
        r.append(join_text(trait_type_args, "_").as_str());
    }
    r.append("_");
    if !erlang_module.is_empty() {
        r.append(erlang_module);
        r.append("_");
    }
    r.append(mangle_type_name(target_type).as_str());
    assert(r@ =~= dict_name(
        canonical_trait@,
        trait_type_args.deep_view(),
        erlang_module@,
        target_type@,
    ));
    r
}

} // verus!
