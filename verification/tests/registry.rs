use coop_executor::poll::Fault;
use coop_executor::registry::{AnyHandler, Cat, Dog, Either, Handler, Registry};

struct AddOne;

struct Double;

struct RejectOdd;

impl Handler<u64, u64> for AddOne {
    fn replies(&self, _args: &u64, _out: &Result<u64, Fault>) -> bool {
        true
    }

    fn invoke(&self, args: &u64) -> Result<u64, Fault> {
        Ok(*args + 1)
    }
}

impl Handler<u64, u64> for Double {
    fn replies(&self, _args: &u64, _out: &Result<u64, Fault>) -> bool {
        true
    }

    fn invoke(&self, args: &u64) -> Result<u64, Fault> {
        Ok(*args * 2)
    }
}

impl Handler<u64, u64> for RejectOdd {
    fn replies(&self, _args: &u64, _out: &Result<u64, Fault>) -> bool {
        true
    }

    fn invoke(&self, args: &u64) -> Result<u64, Fault> {
        if *args % 2 == 1 {
            Err(Fault { code: *args })
        } else {
            Ok(0)
        }
    }
}

#[test]
fn three_handlers_answer_in_the_order_of_registration() {
    let mut reg: Registry<AnyHandler<u64, u64>> = Registry::new();
    reg.register(1, AnyHandler::new(AddOne));
    reg.register(2, AnyHandler::new(Double));
    reg.register(3, AnyHandler::new(RejectOdd));
    assert_eq!(reg.len(), 3);
    let out: Vec<Result<u64, Fault>> = reg.dispatch_all(&7);
    assert_eq!(out, vec![Ok(8), Ok(14), Err(Fault { code: 7 })]);
    let out: Vec<Result<u64, Fault>> = reg.dispatch_all(&10);
    assert_eq!(out, vec![Ok(11), Ok(20), Ok(0)]);
    assert_eq!(reg.len(), 3);
}

#[test]
fn registration_order_decides_the_order_of_the_answers() {
    let mut reg: Registry<AnyHandler<u64, u64>> = Registry::new();
    reg.register(2, AnyHandler::new(Double));
    reg.register(1, AnyHandler::new(AddOne));
    let out: Vec<Result<u64, Fault>> = reg.dispatch_all(&7);
    assert_eq!(out, vec![Ok(14), Ok(8)]);
}

#[test]
fn empty_registry_answers_nothing() {
    let reg: Registry<AnyHandler<u64, u64>> = Registry::new();
    assert_eq!(reg.len(), 0);
    let out: Vec<Result<u64, Fault>> = reg.dispatch_all(&1);
    assert!(out.is_empty());
    assert_eq!(reg.tag_at(0), None);
    assert_eq!(reg.lookup(0), None);
}

#[test]
fn animals_speak_in_turn() {
    let mut reg: Registry<AnyHandler<(), &'static str>> = Registry::new();
    reg.register(0, AnyHandler::new(Dog));
    reg.register(1, AnyHandler::new(Cat));
    let out: Vec<Result<&'static str, Fault>> = reg.dispatch_all(&());
    assert_eq!(out, vec![Ok("woof"), Ok("meow")]);
}

#[test]
fn registry_of_one_concrete_type_dispatches_statically() {
    let mut reg: Registry<Dog> = Registry::new();
    reg.register(5, Dog);
    reg.register(6, Dog);
    let out: Vec<Result<&'static str, Fault>> = reg.dispatch_all(&());
    assert_eq!(out, vec![Ok("woof"), Ok("woof")]);
}

#[test]
fn any_handler_answers_as_the_handler_it_holds() {
    let boxed: AnyHandler<u64, u64> = AnyHandler::new(Double);
    assert_eq!(boxed.invoke(&21), Ok(42));
    assert_eq!(Dog.invoke(&()), Ok("woof"));
    assert_eq!(Cat.invoke(&()), Ok("meow"));
}

#[test]
fn lookup_finds_the_first_handler_of_a_tag() {
    let mut reg: Registry<AnyHandler<u64, u64>> = Registry::new();
    reg.register(10, AnyHandler::new(AddOne));
    reg.register(20, AnyHandler::new(Double));
    reg.register(10, AnyHandler::new(RejectOdd));
    assert_eq!(reg.lookup(10), Some(0));
    assert_eq!(reg.lookup(20), Some(1));
    assert_eq!(reg.lookup(30), None);
    assert_eq!(reg.tag_at(0), Some(10));
    assert_eq!(reg.tag_at(1), Some(20));
    assert_eq!(reg.tag_at(2), Some(10));
    assert_eq!(reg.tag_at(3), None);
}

#[test]
fn either_holds_handlers_of_two_types_side_by_side() {
    let mut reg: Registry<Either<Dog, Cat>> = Registry::new();
    reg.register(0, Either::Left(Dog));
    reg.register(1, Either::Right(Cat));
    reg.register(2, Either::Left(Dog));
    let out: Vec<Result<&'static str, Fault>> = reg.dispatch_all(&());
    assert_eq!(out, vec![Ok("woof"), Ok("meow"), Ok("woof")]);
}

#[test]
fn nested_either_holds_three_types() {
    let mut reg: Registry<Either<AddOne, Either<Double, RejectOdd>>> = Registry::new();
    reg.register(1, Either::Left(AddOne));
    reg.register(2, Either::Right(Either::Left(Double)));
    reg.register(3, Either::Right(Either::Right(RejectOdd)));
    let out: Vec<Result<u64, Fault>> = reg.dispatch_all(&3);
    assert_eq!(out, vec![Ok(4), Ok(6), Err(Fault { code: 3 })]);
}

struct Scale {
    by: u64,
}

impl Handler<u64, u64> for Scale {
    fn replies(&self, _args: &u64, _out: &Result<u64, Fault>) -> bool {
        true
    }

    fn invoke(&self, args: &u64) -> Result<u64, Fault> {
        Ok(*args * self.by)
    }
}

#[test]
fn any_handler_holds_the_very_handler_it_was_given() {
    let three: AnyHandler<u64, u64> = AnyHandler::new(Scale { by: 3 });
    let five: AnyHandler<u64, u64> = AnyHandler::new(Scale { by: 5 });
    assert_eq!(three.invoke(&7), Ok(21));
    assert_eq!(five.invoke(&7), Ok(35));
    assert_eq!(three.invoke(&0), Ok(0));
    let nested: AnyHandler<u64, u64> = AnyHandler::new(three);
    assert_eq!(nested.invoke(&2), Ok(6));
}
