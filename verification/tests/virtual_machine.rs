use fuh_rs::virtual_machine::{BasicCPU, BasicIsa, BasicRegister, CPU};

#[test]
pub fn basic_virtual_machine_test() {
    {
        let cpu = BasicCPU {
            registers: [1, 2, 0],
        };
        let instruction = BasicIsa::ADD(BasicRegister::A, BasicRegister::A, BasicRegister::C);
        assert_eq!(
            BasicCPU {
                registers: [1, 2, 2]
            },
            cpu.execute(instruction)
        );
    }
    {
        let cpu = BasicCPU {
            registers: [1, 2, 0],
        };
        let instruction = BasicIsa::ADD(BasicRegister::A, BasicRegister::B, BasicRegister::C);
        assert_eq!(
            BasicCPU {
                registers: [1, 2, 3]
            },
            cpu.execute(instruction)
        );
    }
}

#[test]
pub fn basic_virtual_machine_consuming_instructions() {
    let instructions = vec![
        BasicIsa::ADD(BasicRegister::A, BasicRegister::C, BasicRegister::C),
        BasicIsa::ADD(BasicRegister::A, BasicRegister::C, BasicRegister::C),
        BasicIsa::ADD(BasicRegister::A, BasicRegister::C, BasicRegister::C),
        BasicIsa::ADD(BasicRegister::A, BasicRegister::C, BasicRegister::C),
        BasicIsa::ADD(BasicRegister::A, BasicRegister::C, BasicRegister::C),
        BasicIsa::COPY(BasicRegister::C, BasicRegister::B),
    ];
    let cpu = BasicCPU {
        registers: [1, 0, 0],
    };
    assert_eq!(
        BasicCPU {
            registers: [1, 5, 5]
        },
        cpu.executes(instructions.into_iter())
    );
}

#[test]
fn default_machine_has_default_registers() {
    let cpu: BasicCPU<i32> = BasicCPU::default();
    assert_eq!(cpu.registers, [0, 0, 0]);
    let flags: BasicCPU<bool> = BasicCPU::default();
    assert_eq!(flags.registers, [false, false, false]);
}

#[test]
fn executes_nothing_returns_the_state() {
    let cpu = BasicCPU {
        registers: [7, 8, 9],
    };
    let none: Vec<BasicIsa<i32, BasicRegister>> = Vec::new();
    assert_eq!(
        BasicCPU {
            registers: [7, 8, 9]
        },
        cpu.executes(none.into_iter())
    );
}

#[test]
fn copy_writes_only_the_destination() {
    let cpu = BasicCPU {
        registers: [4, 5, 6],
    };
    assert_eq!(
        BasicCPU {
            registers: [4, 4, 6]
        },
        cpu.execute(BasicIsa::COPY(BasicRegister::A, BasicRegister::B))
    );
    let cpu = BasicCPU {
        registers: [4, 5, 6],
    };
    assert_eq!(
        BasicCPU {
            registers: [4, 5, 6]
        },
        cpu.execute(BasicIsa::COPY(BasicRegister::C, BasicRegister::C))
    );
}

#[test]
fn set_writes_the_immediate() {
    let cpu = BasicCPU {
        registers: [4, 5, 6],
    };
    assert_eq!(
        BasicCPU {
            registers: [4, 5, -3]
        },
        cpu.execute(BasicIsa::SET(-3, BasicRegister::C))
    );
    let cpu = BasicCPU {
        registers: [4u8, 5, 6],
    };
    assert_eq!(
        BasicCPU {
            registers: [255u8, 5, 6]
        },
        cpu.execute(BasicIsa::SET(255, BasicRegister::A))
    );
}

#[test]
fn add_reads_the_state_before_it_writes() {
    let cpu = BasicCPU {
        registers: [3, 10, 20],
    };
    assert_eq!(
        BasicCPU {
            registers: [6, 10, 20]
        },
        cpu.execute(BasicIsa::ADD(BasicRegister::A, BasicRegister::A, BasicRegister::A))
    );
    let cpu = BasicCPU {
        registers: [3, 10, 20],
    };
    assert_eq!(
        BasicCPU {
            registers: [3, 13, 20]
        },
        cpu.execute(BasicIsa::ADD(BasicRegister::B, BasicRegister::A, BasicRegister::B))
    );
}

#[test]
fn executes_is_execute_in_order() {
    let by_batch = BasicCPU {
        registers: [0i64, 0, 0],
    }
    .executes(
        vec![
            BasicIsa::SET(2, BasicRegister::A),
            BasicIsa::COPY(BasicRegister::A, BasicRegister::B),
            BasicIsa::ADD(BasicRegister::A, BasicRegister::B, BasicRegister::C),
            BasicIsa::SET(9, BasicRegister::A),
        ]
        .into_iter(),
    );
    let by_step = BasicCPU {
        registers: [0i64, 0, 0],
    }
    .execute(BasicIsa::SET(2, BasicRegister::A))
    .execute(BasicIsa::COPY(BasicRegister::A, BasicRegister::B))
    .execute(BasicIsa::ADD(BasicRegister::A, BasicRegister::B, BasicRegister::C))
    .execute(BasicIsa::SET(9, BasicRegister::A));
    assert_eq!(by_batch, by_step);
    assert_eq!(by_batch.registers, [9, 2, 4]);
}

#[test]
fn registers_name_slots_zero_one_two() {
    assert_eq!(usize::from(BasicRegister::A), 0);
    assert_eq!(usize::from(BasicRegister::B), 1);
    assert_eq!(usize::from(BasicRegister::C), 2);
    assert_eq!(BasicRegister::A.index(), 0);
    assert_eq!(BasicRegister::B.index(), 1);
    assert_eq!(BasicRegister::C.index(), 2);
}
