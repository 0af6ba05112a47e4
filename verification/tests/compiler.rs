//! Scenarios against the compiler pipeline: registration, composition of
//! partials and mixins, overload resolution and naming, classification and
//! emission.
use webidl_core::CompileError;
use webidl_core::classify::Role;
use webidl_core::compose::resolve_interface;
use webidl_core::decl::InterfaceDecl;
use webidl_core::decl::Member;
use webidl_core::decl::MemberKind;
use webidl_core::decl::MixinDecl;
use webidl_core::decl::Optionality;
use webidl_core::decl::Param;
use webidl_core::decl::PartialDecl;
use webidl_core::decl::check_member;
use webidl_core::emit::compile_all;
use webidl_core::overload::resolve_overloads;
use webidl_core::registry::Registry;
use webidl_core::types::IdlType;
use webidl_core::types::Prim;
use webidl_core::types::UnionAlt;
use webidl_core::types::check_union;

fn param(name: &str, prim: Prim, opt: Optionality) -> Param {
    Param { name: name.to_string(), ty: IdlType::TPrim(prim), opt, variadic: false }
}

fn req(name: &str, prim: Prim) -> Param {
    param(name, prim, Optionality::Required)
}

fn method(name: &str, params: Vec<Param>) -> Member {
    Member {
        name: name.to_string(),
        kind: MemberKind::KMethod,
        params,
        ret: IdlType::TPrim(Prim::PNum),
        unforgeable: false,
        readonly: false,
    }
}

fn property(name: &str, readonly: bool) -> Member {
    Member {
        name: name.to_string(),
        kind: MemberKind::KProperty,
        params: Vec::new(),
        ret: IdlType::TPrim(Prim::PNum),
        unforgeable: false,
        readonly,
    }
}

fn interface(name: &str, mixins: Vec<&str>, members: Vec<Member>) -> InterfaceDecl {
    InterfaceDecl {
        name: name.to_string(),
        mixins: mixins.iter().map(|m| m.to_string()).collect(),
        members,
    }
}

#[test]
fn duplicate_interface_is_refused() {
    let mut reg = Registry::new();
    assert!(reg.register_interface(interface("Foo", vec![], vec![])).is_ok());
    let r = reg.register_interface(interface("Foo", vec![], vec![]));
    assert!(matches!(r, Err(CompileError::DuplicateInterface(n)) if n == "Foo"));
    assert!(reg.register_interface(interface("Bar", vec![], vec![])).is_ok());
}

#[test]
fn lookup_unknown_interface_fails() {
    let mut reg = Registry::new();
    reg.register_interface(interface("Foo", vec![], vec![])).unwrap();
    assert!(reg.lookup(&"Foo".to_string()).is_ok());
    let r = reg.lookup(&"Missing".to_string());
    assert!(matches!(r, Err(CompileError::UnknownInterface(n)) if n == "Missing"));
}

#[test]
fn partial_interface() {
    let mut reg = Registry::new();
    reg.register_interface(
        interface("PartialInterface", vec![], vec![method("un", vec![]), method("deux", vec![])]),
    )
    .unwrap();
    reg.register_partial(PartialDecl {
        target: "PartialInterface".to_string(),
        members: vec![method("trois", vec![]), method("quatre", vec![])],
    });
    let ri = resolve_interface(&reg, 0).unwrap();
    assert_eq!(ri.name, "PartialInterface");
    let names: Vec<&str> = ri.members.iter().map(|m| m.name.as_str()).collect();
    assert_eq!(names, vec!["un", "deux", "trois", "quatre"]);
}

#[test]
fn later_partial_member_wins_over_earlier() {
    let mut reg = Registry::new();
    reg.register_interface(interface("Foo", vec![], vec![])).unwrap();
    let mut first = method("m", vec![]);
    first.unforgeable = false;
    let mut second = method("m", vec![req("x", Prim::PNum)]);
    second.unforgeable = true;
    reg.register_partial(PartialDecl { target: "Foo".to_string(), members: vec![first] });
    reg.register_partial(PartialDecl { target: "Foo".to_string(), members: vec![second] });
    let ri = resolve_interface(&reg, 0).unwrap();
    assert_eq!(ri.members.len(), 1);
    assert_eq!(ri.members[0].name, "m");
    assert!(ri.members[0].unforgeable);
    assert_eq!(ri.members[0].params.len(), 1);
}

#[test]
fn mixin_members_are_spliced_and_keep_their_flags() {
    let mut reg = Registry::new();
    reg.register_interface(
        interface("MixinFoo", vec!["Bar"], vec![method("bar", vec![])]),
    )
    .unwrap();
    let mut uno = method("uno", vec![]);
    uno.unforgeable = true;
    reg.register_mixin(MixinDecl {
        name: "Bar".to_string(),
        members: vec![uno, method("add_to_bar", vec![req("amount", Prim::PNum)])],
    })
    .unwrap();
    let ri = resolve_interface(&reg, 0).unwrap();
    let names: Vec<&str> = ri.members.iter().map(|m| m.name.as_str()).collect();
    assert_eq!(names, vec!["bar", "uno", "add_to_bar"]);
    assert!(ri.members[1].unforgeable);
}

#[test]
fn unknown_mixin_fails_resolution() {
    let mut reg = Registry::new();
    reg.register_interface(interface("Foo", vec!["Nowhere"], vec![])).unwrap();
    let r = resolve_interface(&reg, 0);
    assert!(matches!(r, Err(CompileError::UnknownInterface(n)) if n == "Nowhere"));
}

#[test]
fn different_kind_collision_is_a_member_conflict() {
    let mut reg = Registry::new();
    reg.register_interface(interface("Foo", vec![], vec![property("x", false)])).unwrap();
    reg.register_partial(PartialDecl {
        target: "Foo".to_string(),
        members: vec![method("x", vec![])],
    });
    let r = resolve_interface(&reg, 0);
    assert!(matches!(r, Err(CompileError::MemberConflict(i, m)) if i == "Foo" && m == "x"));
}

#[test]
fn overload_naming() {
    let members = vec![
        method("foo", vec![]),
        method("foo", vec![req("arg", Prim::PStr)]),
        method("foo", vec![req("arg", Prim::PStr), req("i32", Prim::PNum)]),
        method("foo", vec![req("arg", Prim::PStr), req("flag", Prim::PBool)]),
        method("bar", vec![req("x", Prim::PNum)]),
    ];
    let bs = resolve_overloads(&"Overloads".to_string(), &members).unwrap();
    let names: Vec<&str> = bs.iter().map(|b| b.emitted.as_str()).collect();
    assert_eq!(
        names,
        vec!["foo", "foo_with_arg", "foo_with_arg_and_i32", "foo_with_arg_and_flag", "bar"],
    );
    assert!(bs[4].lone);
    assert!(!bs[0].lone);
}

#[test]
fn optional_and_union_arguments() {
    let members = vec![
        method("m", vec![]),
        method("m", vec![req("b", Prim::PBool)]),
        method("m", vec![req("b", Prim::PBool), req("i16", Prim::PNum)]),
        method("m", vec![req("b", Prim::PBool), req("str", Prim::PStr)]),
        method(
            "m",
            vec![
                req("b", Prim::PBool),
                req("i16", Prim::PNum),
                param("opt_i64", Prim::PBigInt, Optionality::Optional),
            ],
        ),
        method(
            "m",
            vec![
                req("b", Prim::PBool),
                req("str", Prim::PStr),
                param("opt_bool", Prim::PBool, Optionality::Optional),
            ],
        ),
    ];
    let bs = resolve_overloads(&"OptionalAndUnionArguments".to_string(), &members).unwrap();
    let names: Vec<&str> = bs.iter().map(|b| b.emitted.as_str()).collect();
    assert_eq!(
        names,
        vec![
            "m",
            "m_with_b",
            "m_with_b_and_i16",
            "m_with_b_and_str",
            "m_with_b_and_i16_and_opt_i64",
            "m_with_b_and_str_and_opt_bool",
        ],
    );
    assert_eq!(bs[4].req_count, 2);
}

#[test]
fn optional_and_union_argument_tails() {
    let members = vec![
        method(
            "m",
            vec![
                req("b", Prim::PBool),
                req("i16", Prim::PNum),
                param("opt_bool", Prim::PBool, Optionality::Optional),
            ],
        ),
        method(
            "m",
            vec![
                req("b", Prim::PBool),
                req("str", Prim::PStr),
                param("opt_i64", Prim::PBigInt, Optionality::Optional),
            ],
        ),
    ];
    let bs = resolve_overloads(&"OptionalAndUnionArguments".to_string(), &members).unwrap();
    let names: Vec<&str> = bs.iter().map(|b| b.emitted.as_str()).collect();
    assert_eq!(names, vec!["m_with_b_and_i16_and_opt_bool", "m_with_b_and_str_and_opt_i64"]);
}

#[test]
fn indistinguishable_overloads_are_ambiguous() {
    let members = vec![
        method("m", vec![req("a", Prim::PNum)]),
        method("m", vec![req("b", Prim::PNum)]),
    ];
    let r = resolve_overloads(&"Foo".to_string(), &members);
    assert!(matches!(r, Err(CompileError::AmbiguousOverload(i, m)) if i == "Foo" && m == "m"));
}

#[test]
fn constructor_paths_surface_as_new() {
    let mut ctor0 = method("Widget", vec![]);
    ctor0.kind = MemberKind::KConstructor;
    let mut ctor1 = method("Widget", vec![req("v", Prim::PNum)]);
    ctor1.kind = MemberKind::KConstructor;
    let members = vec![ctor0, ctor1, method("Widget", vec![req("v", Prim::PNum)])];
    let bs = resolve_overloads(&"Widget".to_string(), &members).unwrap();
    let names: Vec<&str> = bs.iter().map(|b| b.emitted.as_str()).collect();
    // The constructors form their own overload set and surface new-based;
    // the same-named method keeps the declared name.
    assert_eq!(names, vec!["new", "new_with_v", "Widget"]);
}

#[test]
fn colliding_emitted_names_are_ambiguous() {
    // A lone constructor surfaces as `new`; a method declared under the name
    // `new` would keep that bare name, and the resolver must refuse the
    // collision.
    let mut ctor = method("Widget", vec![]);
    ctor.kind = MemberKind::KConstructor;
    let members = vec![ctor, method("new", vec![])];
    let r = resolve_overloads(&"Widget".to_string(), &members);
    assert!(matches!(r, Err(CompileError::AmbiguousOverload(_, _))));
}

#[test]
fn ambiguous_union_member_fails_compilation() {
    // Two number-tagged alternatives share a runtime tag: no tag check can
    // dispatch between them, so the member must be refused at compile time.
    let bad_union = IdlType::TUnion(vec![UnionAlt::APrim(Prim::PNum), UnionAlt::APrim(Prim::PNum)]);
    let m = Member {
        name: "m".to_string(),
        kind: MemberKind::KMethod,
        params: vec![Param {
            name: "x".to_string(),
            ty: bad_union,
            opt: Optionality::Required,
            variadic: false,
        }],
        ret: IdlType::TPrim(Prim::PNum),
        unforgeable: false,
        readonly: false,
    };
    let r = resolve_overloads(&"Foo".to_string(), &vec![m]);
    assert!(matches!(r, Err(CompileError::AmbiguousOverload(i, n)) if i == "Foo" && n == "m"));

    // The same declaration fails through the whole pipeline, and only for
    // its own interface.
    let bad_union2 =
        IdlType::TUnion(vec![UnionAlt::APrim(Prim::PNum), UnionAlt::APrim(Prim::PNum)]);
    let m2 = Member {
        name: "m".to_string(),
        kind: MemberKind::KMethod,
        params: vec![Param {
            name: "x".to_string(),
            ty: bad_union2,
            opt: Optionality::Required,
            variadic: false,
        }],
        ret: IdlType::TPrim(Prim::PNum),
        unforgeable: false,
        readonly: false,
    };
    let mut reg = Registry::new();
    reg.register_interface(interface("Bad", vec![], vec![m2])).unwrap();
    reg.register_interface(interface("Good", vec![], vec![method("ok", vec![])])).unwrap();
    let out = compile_all(&reg);
    assert!(matches!(&out[0], Err(CompileError::AmbiguousOverload(i, _)) if i == "Bad"));
    assert_eq!(out[1].as_ref().unwrap().members[0].emitted, "ok");
}

#[test]
fn distinguishable_union_member_compiles() {
    let good_union =
        IdlType::TUnion(vec![UnionAlt::APrim(Prim::PNum), UnionAlt::APrim(Prim::PStr)]);
    let m = Member {
        name: "m".to_string(),
        kind: MemberKind::KMethod,
        params: vec![Param {
            name: "x".to_string(),
            ty: good_union,
            opt: Optionality::Required,
            variadic: false,
        }],
        ret: IdlType::TPrim(Prim::PNum),
        unforgeable: false,
        readonly: false,
    };
    let bs = resolve_overloads(&"Foo".to_string(), &vec![m]).unwrap();
    assert_eq!(bs[0].emitted, "m");
}

#[test]
fn broken_trailing_optional_rule_fails_compilation() {
    let m = method(
        "m",
        vec![
            req("a", Prim::PStr),
            param("b", Prim::PBool, Optionality::Optional),
            req("c", Prim::PNum),
        ],
    );
    let r = resolve_overloads(&"Foo".to_string(), &vec![m]);
    assert!(matches!(r, Err(CompileError::AmbiguousOverload(i, n)) if i == "Foo" && n == "m"));
}

#[test]
fn ambiguous_union_is_refused() {
    let ok = vec![UnionAlt::APrim(Prim::PStr), UnionAlt::APrim(Prim::PBool), UnionAlt::AObject];
    assert!(check_union(&ok));
    let bad = vec![UnionAlt::APrim(Prim::PNum), UnionAlt::APrim(Prim::PNum)];
    assert!(!check_union(&bad));
    let two_objects = vec![UnionAlt::AObject, UnionAlt::AObject];
    assert!(!check_union(&two_objects));
}

#[test]
fn trailing_optional_rule_is_enforced() {
    let good = method(
        "m",
        vec![
            req("a", Prim::PStr),
            param("b", Prim::PBool, Optionality::OptionalWithDefault),
            param("c", Prim::PNum, Optionality::Optional),
        ],
    );
    assert!(check_member(&good));
    let bad = method(
        "m",
        vec![
            req("a", Prim::PStr),
            param("b", Prim::PBool, Optionality::Optional),
            req("c", Prim::PNum),
        ],
    );
    assert!(!check_member(&bad));
}

#[test]
fn properties_emit_an_accessor_pair_and_statics_are_marked() {
    let mut reg = Registry::new();
    reg.register_interface(
        interface(
            "Property",
            vec![],
            vec![property("value", false), property("constant", true)],
        ),
    )
    .unwrap();
    let out = compile_all(&reg);
    assert_eq!(out.len(), 1);
    let ei = out.into_iter().next().unwrap().unwrap();
    assert_eq!(ei.name, "Property");
    let paths: Vec<(String, Role)> =
        ei.members.iter().map(|m| (m.emitted.clone(), m.role)).collect();
    assert_eq!(
        paths,
        vec![
            ("value".to_string(), Role::RoleGetter),
            ("set_value".to_string(), Role::RoleSetter),
            ("constant".to_string(), Role::RoleGetter),
        ],
    );
    assert!(!ei.members[0].is_static);
}

#[test]
fn unforgeable_and_nullable_marks_reach_the_emitted_surface() {
    let mut reg = Registry::new();
    let mut uno = method("uno", vec![]);
    uno.unforgeable = true;
    let mut opt = method("opt", vec![param("v", Prim::PNum, Optionality::Optional)]);
    opt.ret = IdlType::TNullable(Box::new(IdlType::TPrim(Prim::PNum)));
    reg.register_interface(interface("Unforgeable", vec![], vec![uno, opt])).unwrap();
    let out = compile_all(&reg);
    let ei = out.into_iter().next().unwrap().unwrap();
    assert!(ei.members[0].unforgeable);
    assert!(!ei.members[0].nullable_ret);
    assert!(!ei.members[1].unforgeable);
    assert!(ei.members[1].nullable_ret);
}

#[test]
fn one_failing_interface_does_not_abort_the_others() {
    let mut reg = Registry::new();
    reg.register_interface(interface("Broken", vec!["Nowhere"], vec![])).unwrap();
    reg.register_interface(interface("Fine", vec![], vec![method("ok", vec![])])).unwrap();
    let out = compile_all(&reg);
    assert_eq!(out.len(), 2);
    assert!(out[0].is_err());
    let fine = out[1].as_ref().unwrap();
    assert_eq!(fine.name, "Fine");
    assert_eq!(fine.members.len(), 1);
    assert_eq!(fine.members[0].emitted, "ok");
}

#[test]
fn static_members_keep_their_own_kinds_through_the_pipeline() {
    let mut reg = Registry::new();
    let mut sm = method("swap", vec![req("v", Prim::PNum)]);
    sm.kind = MemberKind::KStaticMethod;
    let mut sp = property("value", false);
    sp.kind = MemberKind::KStaticProperty;
    reg.register_interface(interface("StaticProperty", vec![], vec![sm, sp])).unwrap();
    let ei = compile_all(&reg).into_iter().next().unwrap().unwrap();
    let roles: Vec<Role> = ei.members.iter().map(|m| m.role).collect();
    assert_eq!(
        roles,
        vec![Role::RoleStaticMethod, Role::RoleStaticGetter, Role::RoleStaticSetter],
    );
    assert!(ei.members.iter().all(|m| m.is_static));
    assert_eq!(ei.members[2].emitted, "set_value");
}
