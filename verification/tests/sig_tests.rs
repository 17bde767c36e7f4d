use pal_forth::lex::Lex;
use pal_forth::types::CompVar;
use pal_forth::types::SigError;
use pal_forth::types::SigItem;
use pal_forth::types::SigStackEasyMemory;
use pal_forth::types::Type;
use pal_forth::types::TypeInner;
use pal_forth::types::TypeP;
use pal_forth::types::READ_FLAG;
use pal_forth::types::UNIQUE_FLAG;
use pal_forth::types::WRITE_FLAG;

fn make_types() -> (Lex, TypeP, TypeP) {
    let mut lex = Lex::new(16, 16, 64, 16, 16);
    let int_name = lex.intern_name("int").unwrap();
    let type_int = lex
        .types_mem
        .save(Type { inner: TypeInner::Basic, size: 4, cells: 1, name: int_name })
        .unwrap();
    let float_name = lex.intern_name("float").unwrap();
    let type_float = lex
        .types_mem
        .save(Type { inner: TypeInner::Basic, size: 4, cells: 1, name: float_name })
        .unwrap();
    (lex, type_int, type_float)
}

fn name_text_of(lex: &Lex, t: TypeP) -> &str {
    lex.name_text(&lex.type_at(t).unwrap().name).unwrap()
}

#[test]
fn sig_stack_success_case() {
    let (lex, type_int, type_float) = make_types();
    let sig_mem = SigStackEasyMemory::<1024>::new();
    let mut sig_stack = sig_mem.make_sig_stack();

    let var1 = sig_stack.add_local(type_int, lex.type_at(type_int).unwrap().cells);

    let num_borrowed = sig_stack.add_borrows(0);
    let var2 = sig_stack
        .var_arena
        .save(CompVar {
            tp: type_float,
            offset_from_start: 1,
            num_borrowed,
            permissions: READ_FLAG,
        })
        .unwrap();
    sig_stack.stack.push(var1).unwrap();
    sig_stack.stack.push(var2).unwrap();

    let inputs = [
        SigItem { tp: type_int, permissions: READ_FLAG },
        SigItem { tp: type_float, permissions: READ_FLAG },
    ];
    sig_stack.call_sig(&[], &inputs).unwrap();
    assert_eq!(sig_stack.stack.len(), 0);
}

#[test]
fn sig_stack_wrong_type_error() {
    let (lex, type_int, type_float) = make_types();
    let sig_mem = SigStackEasyMemory::<1024>::new();
    let mut sig_stack = sig_mem.make_sig_stack();

    let num_borrowed = sig_stack.add_borrows(0);
    let var1 = sig_stack
        .var_arena
        .save(CompVar {
            tp: type_int,
            offset_from_start: 0,
            num_borrowed,
            permissions: READ_FLAG | WRITE_FLAG | UNIQUE_FLAG,
        })
        .unwrap();
    sig_stack.stack.push(var1).unwrap();

    let inputs = [SigItem { tp: type_float, permissions: READ_FLAG }];
    let err = sig_stack.call_sig(&[], &inputs).unwrap_err();
    match err {
        SigError::WrongType { found, wanted } => {
            assert_eq!(name_text_of(&lex, found), "int");
            assert_eq!(name_text_of(&lex, wanted), "float");
        }
        _ => panic!("Expected WrongType error"),
    }
}

#[test]
fn sig_stack_missing_argument_error() {
    let (lex, type_int, _) = make_types();
    let sig_mem = SigStackEasyMemory::<1024>::new();
    let mut sig_stack = sig_mem.make_sig_stack();

    let inputs = [SigItem { tp: type_int, permissions: READ_FLAG }];
    let err = sig_stack.call_sig(&[], &inputs).unwrap_err();
    match err {
        SigError::MissingArgument(item) => {
            assert_eq!(name_text_of(&lex, item.tp), "int");
        }
        _ => panic!("Expected MissingArgument error"),
    }
}

#[test]
fn sig_stack_permission_error() {
    let (_lex, type_int, _) = make_types();
    let sig_mem = SigStackEasyMemory::<1024>::new();
    let mut sig_stack = sig_mem.make_sig_stack();

    let num_borrowed = sig_stack.add_borrows(0);
    let var1 = sig_stack
        .var_arena
        .save(CompVar {
            tp: type_int,
            offset_from_start: 0,
            num_borrowed,
            permissions: READ_FLAG,
        })
        .unwrap();
    sig_stack.stack.push(var1).unwrap();

    let inputs = [SigItem { tp: type_int, permissions: WRITE_FLAG }];
    let err = sig_stack.call_sig(&[], &inputs).unwrap_err();
    match err {
        SigError::BasicSigError { clash, have } => {
            assert_ne!(clash & WRITE_FLAG, 0);
            assert_eq!(have & WRITE_FLAG, 0);
        }
        _ => panic!("Expected BasicSigError for permissions"),
    }
}

#[test]
fn sig_stack_needs_unique_error() {
    let (_lex, type_int, _) = make_types();
    let sig_mem = SigStackEasyMemory::<1024>::new();
    let mut sig_stack = sig_mem.make_sig_stack();

    let num_borrowed = sig_stack.add_borrows(1);
    let var1 = sig_stack
        .var_arena
        .save(CompVar {
            tp: type_int,
            offset_from_start: 0,
            num_borrowed,
            permissions: READ_FLAG | UNIQUE_FLAG,
        })
        .unwrap();
    sig_stack.stack.push(var1).unwrap();
    sig_stack.stack.push(var1).unwrap();

    let inputs = [
        SigItem { tp: type_int, permissions: UNIQUE_FLAG },
        SigItem { tp: type_int, permissions: UNIQUE_FLAG },
    ];
    let err = sig_stack.call_sig(&[], &inputs).unwrap_err();
    assert!(matches!(err, SigError::NeedsUnique));
}

#[test]
fn sig_stack_already_borrowed_error() {
    let (_lex, type_int, _) = make_types();
    let sig_mem = SigStackEasyMemory::<1024>::new();
    let mut sig_stack = sig_mem.make_sig_stack();

    let num_borrowed = sig_stack.add_borrows(-1);
    let var1 = sig_stack
        .var_arena
        .save(CompVar {
            tp: type_int,
            offset_from_start: 0,
            num_borrowed,
            permissions: READ_FLAG | UNIQUE_FLAG,
        })
        .unwrap();
    sig_stack.stack.push(var1).unwrap();

    let inputs = [SigItem { tp: type_int, permissions: READ_FLAG }];
    let err = sig_stack.call_sig(&[], &inputs).unwrap_err();
    assert!(matches!(err, SigError::AlreadyBorrowed));
}
