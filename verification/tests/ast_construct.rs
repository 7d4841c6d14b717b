use scratch::ast::Program;

#[test]
fn construct_navigate_block() {
    assert!(Program::from_str(
        "
    navigateTo('example.com') {

    }
    "
    )
    .is_ok());
}

#[test]
fn construct_in_block() {
    assert!(Program::from_str(
        "
    navigateTo('example.com') {
      in (table having class('abc')) {
      };
    }
    "
    )
    .is_ok());

    assert!(Program::from_str(
        "
    navigateTo('example.com') {
      in (_ having class('abc')) {
      };
    }
    "
    )
    .is_ok());

    assert!(Program::from_str(
        "
    navigateTo('example.com') {
      in parent of (table having class('abc')) {
      };
    }
    "
    )
    .is_ok());

    assert!(Program::from_str(
        "
    navigateTo('example.com') {
      in child(tr having id('qu')) of (table having class('abc')) {
      };
    }
    "
    )
    .is_ok());
}

#[test]
fn construct_nested_block() {
    assert!(Program::from_str(
        "
    navigateTo('example.com') {
      in (table having class('abc')) {
        in (h1 having id('bc')) {

        };
      };
    }
    "
    )
    .is_ok());

    assert!(Program::from_str(
        "
    navigateTo('example.com') {
      in (table having class('abc')) {
        in (h1 id('bc')) {

        };
      };
    }
    "
    )
    .is_err());
}
