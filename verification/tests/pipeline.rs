use std::cell::RefCell;
use std::rc::Rc;
use std::sync::Arc;
use tapasco_job::collaborators::{AllocatorFault, Memory, ProcessingElement, Scheduler};
use tapasco_job::error::Error;
use tapasco_job::job::Job;
use tapasco_job::parameter::{Parameter, PlacedTransfer, UnplacedTransfer};

#[derive(Debug, Clone, PartialEq)]
enum Event {
    Allocate(u64),
    Free(u64),
    CopyTo(Vec<u8>, u64),
    CopyFrom(u64, usize),
    AddCopyback(u64),
    SetArg32(usize, u32),
    SetArg64(usize, u64),
    Start,
    Release,
    ReturnPe(usize),
}

type Log = Rc<RefCell<Vec<Event>>>;

#[derive(Debug, Default)]
struct PoolState {
    bytes: Vec<u8>,
    live: Vec<(u64, u64)>,
    poisoned: bool,
    allocations_left: Option<usize>,
    dma_broken: bool,
}

/// A pool of device memory held in host memory.
#[derive(Debug)]
struct Pool {
    log: Log,
    state: RefCell<PoolState>,
}

impl Pool {
    fn new(log: &Log, size: usize) -> Arc<Pool> {
        Arc::new(Pool {
            log: log.clone(),
            state: RefCell::new(PoolState { bytes: vec![0; size], ..PoolState::default() }),
        })
    }
}

impl Memory for Pool {
    type AllocatorError = String;
    type DmaError = String;

    fn allocate(&self, size: u64) -> Result<u64, AllocatorFault<String>> {
        self.log.borrow_mut().push(Event::Allocate(size));
        let mut state = self.state.borrow_mut();
        if state.poisoned {
            return Err(AllocatorFault::Poisoned);
        }
        if state.allocations_left == Some(0) {
            return Err(AllocatorFault::Refused(format!("no room for {} bytes", size)));
        }
        let mut address = 0u64;
        loop {
            let clash = state.live.iter().find(|(a, s)| address < a + s && *a < address + size.max(1));
            match clash {
                Some((a, s)) => address = a + s,
                None => break,
            }
        }
        if address + size > state.bytes.len() as u64 {
            return Err(AllocatorFault::Refused(format!("no room for {} bytes", size)));
        }
        state.live.push((address, size.max(1)));
        if let Some(n) = state.allocations_left {
            state.allocations_left = Some(n - 1);
        }
        Ok(address)
    }

    fn free(&self, address: u64) -> Result<(), AllocatorFault<String>> {
        self.log.borrow_mut().push(Event::Free(address));
        let mut state = self.state.borrow_mut();
        if state.poisoned {
            return Err(AllocatorFault::Poisoned);
        }
        match state.live.iter().position(|(a, _)| *a == address) {
            Some(i) => {
                state.live.remove(i);
                Ok(())
            }
            None => Err(AllocatorFault::Refused(format!("nothing allocated at {}", address))),
        }
    }

    fn copy_to(&self, data: &[u8], address: u64) -> Result<(), String> {
        self.log.borrow_mut().push(Event::CopyTo(data.to_vec(), address));
        let mut state = self.state.borrow_mut();
        if state.dma_broken {
            return Err(format!("write of {} bytes failed", data.len()));
        }
        let at = address as usize;
        state.bytes[at..at + data.len()].copy_from_slice(data);
        Ok(())
    }

    fn copy_from(&self, address: u64, dest: &mut [u8]) -> Result<(), String> {
        self.log.borrow_mut().push(Event::CopyFrom(address, dest.len()));
        let state = self.state.borrow();
        if state.dma_broken {
            return Err(format!("read of {} bytes failed", dest.len()));
        }
        let at = address as usize;
        dest.copy_from_slice(&state.bytes[at..at + dest.len()]);
        Ok(())
    }
}

#[derive(Debug)]
struct Element {
    id: usize,
    log: Log,
    copybacks: Option<Vec<PlacedTransfer<Pool>>>,
    registers: usize,
    fails_to_start: bool,
    fails_to_idle: bool,
}

impl Element {
    fn new(id: usize, log: &Log) -> Element {
        Element {
            id,
            log: log.clone(),
            copybacks: None,
            registers: 16,
            fails_to_start: false,
            fails_to_idle: false,
        }
    }
}

impl ProcessingElement<Pool> for Element {
    type Error = String;

    fn set_arg(&self, index: usize, value: Parameter<Pool>) -> Result<(), String> {
        match value {
            Parameter::Scalar32(x) => self.log.borrow_mut().push(Event::SetArg32(index, x)),
            Parameter::Scalar64(x) => self.log.borrow_mut().push(Event::SetArg64(index, x)),
            other => return Err(format!("no register takes {:?}", other)),
        }
        if index >= self.registers {
            Err(format!("no register {}", index))
        } else {
            Ok(())
        }
    }

    fn start(&mut self) -> Result<(), String> {
        self.log.borrow_mut().push(Event::Start);
        if self.fails_to_start {
            Err(String::from("element does not start"))
        } else {
            Ok(())
        }
    }

    fn add_copyback(&mut self, transfer: PlacedTransfer<Pool>) {
        self.log.borrow_mut().push(Event::AddCopyback(transfer.device_address));
        self.copybacks.get_or_insert_with(Vec::new).push(transfer);
    }

    fn release(&mut self) -> Result<Option<Vec<PlacedTransfer<Pool>>>, String> {
        self.log.borrow_mut().push(Event::Release);
        if self.fails_to_idle {
            Err(String::from("element does not become idle"))
        } else {
            Ok(self.copybacks.take())
        }
    }
}

#[derive(Debug)]
struct Elements {
    log: Log,
    closed: bool,
}

impl Scheduler<Element> for Elements {
    type Error = String;

    fn release_pe(&self, pe: Element) -> Result<(), String> {
        self.log.borrow_mut().push(Event::ReturnPe(pe.id));
        if self.closed {
            Err(format!("element {} not taken back", pe.id))
        } else {
            Ok(())
        }
    }
}

type TestJob = Job<Pool, Element, Elements>;

fn unplaced(
    pool: &Arc<Pool>,
    data: &[u8],
    to_device: bool,
    from_device: bool,
    free_after: bool,
) -> Parameter<Pool> {
    Parameter::UnplacedTransfer(UnplacedTransfer {
        data: data.to_vec(),
        from_device,
        to_device,
        memory: pool.clone(),
        free_after,
    })
}

fn placed(
    pool: &Arc<Pool>,
    data: &[u8],
    device_address: u64,
    to_device: bool,
    from_device: bool,
    free_after: bool,
) -> PlacedTransfer<Pool> {
    PlacedTransfer { data: data.to_vec(), device_address, from_device, to_device, memory: pool.clone(), free_after }
}

fn job_with(element: Element, log: &Log) -> TestJob {
    let scheduler = Arc::new(Elements { log: log.clone(), closed: false });
    Job::new(element, &scheduler)
}

fn job_on(id: usize, log: &Log) -> TestJob {
    job_with(Element::new(id, log), log)
}

fn events(log: &Log) -> Vec<Event> {
    log.borrow().clone()
}

#[test]
fn allocation_keeps_order_and_fields() {
    let log: Log = Log::default();
    let pool = Pool::new(&log, 64);
    let mut job = job_on(3, &log);
    let args = vec![
        Parameter::Scalar32(7),
        unplaced(&pool, &[1, 2, 3], true, false, true),
        Parameter::Scalar64(9),
        unplaced(&pool, &[4, 5], false, true, false),
        Parameter::DeviceAddress(40),
    ];
    let out = job.handle_allocates(args).unwrap();
    assert_eq!(out.len(), 5);
    assert!(matches!(out[0], Parameter::Scalar32(7)));
    match &out[1] {
        Parameter::PlacedTransfer(t) => {
            assert_eq!(t.data, vec![1, 2, 3]);
            assert_eq!(t.device_address, 0);
            assert!(t.to_device && !t.from_device && t.free_after);
            assert!(Arc::ptr_eq(&t.memory, &pool));
        }
        other => panic!("not placed: {:?}", other),
    }
    assert!(matches!(out[2], Parameter::Scalar64(9)));
    match &out[3] {
        Parameter::PlacedTransfer(t) => {
            assert_eq!(t.data, vec![4, 5]);
            assert_eq!(t.device_address, 3);
            assert!(!t.to_device && t.from_device && !t.free_after);
        }
        other => panic!("not placed: {:?}", other),
    }
    assert!(matches!(out[4], Parameter::DeviceAddress(40)));
    assert_eq!(events(&log), vec![Event::Allocate(3), Event::Allocate(2)]);
}

#[test]
fn allocation_leaves_placed_transfers_alone() {
    let log: Log = Log::default();
    let pool = Pool::new(&log, 64);
    let mut job = job_on(0, &log);
    let args = vec![Parameter::PlacedTransfer(placed(&pool, &[9, 9], 12, true, true, false))];
    let out = job.handle_allocates(args).unwrap();
    match &out[0] {
        Parameter::PlacedTransfer(t) => {
            assert_eq!(t.data, vec![9, 9]);
            assert_eq!(t.device_address, 12);
        }
        other => panic!("changed: {:?}", other),
    }
    assert_eq!(events(&log), vec![]);
}

#[test]
fn allocation_of_nothing_asks_nothing() {
    let log: Log = Log::default();
    let mut job = job_on(0, &log);
    let out = job.handle_allocates(Vec::new()).unwrap();
    assert!(out.is_empty());
    assert_eq!(events(&log), vec![]);
}

#[test]
fn allocation_asks_for_the_length_of_the_data() {
    let log: Log = Log::default();
    let pool = Pool::new(&log, 64);
    let mut job = job_on(0, &log);
    let args = vec![unplaced(&pool, &[], true, false, false), unplaced(&pool, &[0; 17], true, false, false)];
    job.handle_allocates(args).unwrap();
    assert_eq!(events(&log), vec![Event::Allocate(0), Event::Allocate(17)]);
}

#[test]
fn poisoned_lock_is_a_mutex_error() {
    let log: Log = Log::default();
    let pool = Pool::new(&log, 64);
    pool.state.borrow_mut().poisoned = true;
    let mut job = job_on(0, &log);
    let r = job.handle_allocates(vec![unplaced(&pool, &[1], true, false, false)]);
    assert!(matches!(r, Err(Error::MutexError {})));
    assert_eq!(events(&log), vec![Event::Allocate(1)]);
}

#[test]
fn poisoned_lock_fails_a_start() {
    let log: Log = Log::default();
    let pool = Pool::new(&log, 64);
    pool.state.borrow_mut().poisoned = true;
    let mut job = job_on(0, &log);
    let r = job.start(vec![Parameter::Scalar32(1), unplaced(&pool, &[1], true, false, false)]);
    assert!(matches!(r, Err(Error::MutexError {})));
    assert_eq!(events(&log), vec![Event::Allocate(1)]);
    assert!(job.holds_pe());
}

#[test]
fn poisoned_lock_fails_a_free() {
    let log: Log = Log::default();
    let pool = Pool::new(&log, 64);
    let mut job = job_on(0, &log);
    job.start(vec![unplaced(&pool, &[1, 2], true, true, true)]).unwrap();
    pool.state.borrow_mut().poisoned = true;
    let r = job.release(true);
    assert!(matches!(r, Err(Error::MutexError {})));
    assert_eq!(
        events(&log)[5..],
        [Event::Release, Event::ReturnPe(0), Event::CopyFrom(0, 2), Event::Free(0)]
    );
}

#[test]
fn refused_allocation_stops_at_the_first_failure() {
    let log: Log = Log::default();
    let pool = Pool::new(&log, 64);
    pool.state.borrow_mut().allocations_left = Some(1);
    let mut job = job_on(0, &log);
    let args = vec![
        unplaced(&pool, &[1], true, false, false),
        unplaced(&pool, &[2, 2], true, false, false),
        unplaced(&pool, &[3, 3, 3], true, false, false),
    ];
    match job.handle_allocates(args) {
        Err(Error::AllocatorError { source }) => assert_eq!(source, "no room for 2 bytes"),
        other => panic!("unexpected: {:?}", other),
    }
    assert_eq!(events(&log), vec![Event::Allocate(1), Event::Allocate(2)]);
}

#[test]
fn allocator_fault_becomes_the_matching_error() {
    let poisoned: Error<Pool, Element, Elements> =
        Error::from_allocator_fault(AllocatorFault::Poisoned);
    assert!(matches!(poisoned, Error::MutexError {}));
    let refused: Error<Pool, Element, Elements> =
        Error::from_allocator_fault(AllocatorFault::Refused(String::from("full")));
    match refused {
        Error::AllocatorError { source } => assert_eq!(source, "full"),
        other => panic!("unexpected: {:?}", other),
    }
}

#[test]
fn transfer_stage_writes_notes_and_forwards() {
    let log: Log = Log::default();
    let pool = Pool::new(&log, 64);
    let mut job = job_on(0, &log);
    let args = vec![
        Parameter::Scalar64(5),
        Parameter::PlacedTransfer(placed(&pool, &[1, 2], 8, true, false, false)),
        Parameter::PlacedTransfer(placed(&pool, &[3], 16, false, true, true)),
        Parameter::PlacedTransfer(placed(&pool, &[4, 5, 6], 24, true, true, false)),
        Parameter::DeviceAddress(32),
    ];
    let out = job.handle_transfers_to_device(args).unwrap();
    assert_eq!(out.len(), 4);
    assert!(matches!(out[0], Parameter::Scalar64(5)));
    assert!(matches!(out[1], Parameter::DeviceAddress(8)));
    assert!(matches!(out[2], Parameter::DeviceAddress(24)));
    assert!(matches!(out[3], Parameter::DeviceAddress(32)));
    assert_eq!(
        events(&log),
        vec![
            Event::CopyTo(vec![1, 2], 8),
            Event::AddCopyback(16),
            Event::CopyTo(vec![4, 5, 6], 24),
            Event::AddCopyback(24),
        ]
    );
    assert_eq!(pool.state.borrow().bytes[8..10], [1, 2]);
    assert_eq!(pool.state.borrow().bytes[24..27], [4, 5, 6]);
    assert_eq!(pool.state.borrow().bytes[16], 0);
}

#[test]
fn transfer_stage_passes_an_unplaced_transfer_on() {
    let log: Log = Log::default();
    let pool = Pool::new(&log, 64);
    let mut job = job_on(0, &log);
    let out = job
        .handle_transfers_to_device(vec![unplaced(&pool, &[1, 2], true, true, true)])
        .unwrap();
    assert_eq!(out.len(), 1);
    match &out[0] {
        Parameter::UnplacedTransfer(t) => assert_eq!(t.data, vec![1, 2]),
        other => panic!("changed: {:?}", other),
    }
    assert_eq!(events(&log), vec![]);
}

#[test]
fn transfer_failure_is_a_dma_error() {
    let log: Log = Log::default();
    let pool = Pool::new(&log, 64);
    pool.state.borrow_mut().dma_broken = true;
    let mut job = job_on(0, &log);
    let args = vec![
        Parameter::PlacedTransfer(placed(&pool, &[7], 0, false, true, false)),
        Parameter::PlacedTransfer(placed(&pool, &[1, 2], 8, true, true, false)),
        Parameter::PlacedTransfer(placed(&pool, &[3], 16, true, false, false)),
    ];
    match job.handle_transfers_to_device(args) {
        Err(Error::DMAError { source }) => assert_eq!(source, "write of 2 bytes failed"),
        other => panic!("unexpected: {:?}", other),
    }
    assert_eq!(events(&log), vec![Event::AddCopyback(0), Event::CopyTo(vec![1, 2], 8)]);
}

#[test]
fn registers_take_scalars_and_addresses() {
    let log: Log = Log::default();
    let mut job = job_on(0, &log);
    let values = vec![Parameter::Scalar32(1), Parameter::DeviceAddress(2), Parameter::Scalar64(3)];
    job.set_arguments(values).unwrap();
    assert_eq!(
        events(&log),
        vec![Event::SetArg32(0, 1), Event::SetArg64(1, 2), Event::SetArg64(2, 3)]
    );
}

#[test]
fn placed_transfer_at_the_registers_is_rejected() {
    let log: Log = Log::default();
    let pool = Pool::new(&log, 64);
    let mut job = job_on(0, &log);
    let values = vec![
        Parameter::Scalar32(1),
        Parameter::PlacedTransfer(placed(&pool, &[5, 6], 9, true, false, true)),
        Parameter::Scalar32(2),
    ];
    match job.set_arguments(values) {
        Err(Error::UnsupportedRegisterParameter { arg: Parameter::PlacedTransfer(t) }) => {
            assert_eq!(t.data, vec![5, 6]);
            assert_eq!(t.device_address, 9);
            assert!(t.to_device && !t.from_device && t.free_after);
        }
        other => panic!("unexpected: {:?}", other),
    }
    assert_eq!(events(&log), vec![Event::SetArg32(0, 1)]);
}

#[test]
fn unplaced_transfer_at_the_registers_is_rejected() {
    let log: Log = Log::default();
    let pool = Pool::new(&log, 64);
    let mut job = job_on(0, &log);
    match job.set_arguments(vec![unplaced(&pool, &[8], false, true, false)]) {
        Err(Error::UnsupportedRegisterParameter { arg: Parameter::UnplacedTransfer(t) }) => {
            assert_eq!(t.data, vec![8]);
            assert!(!t.to_device && t.from_device && !t.free_after);
        }
        other => panic!("unexpected: {:?}", other),
    }
    assert_eq!(events(&log), vec![]);
}

#[test]
fn transfer_is_rejected_without_a_processing_element() {
    let log: Log = Log::default();
    let pool = Pool::new(&log, 64);
    let mut job = job_on(0, &log);
    job.release(true).unwrap();
    assert!(!job.holds_pe());
    let r = job.set_arguments(vec![unplaced(&pool, &[8], true, false, false)]);
    assert!(matches!(r, Err(Error::UnsupportedRegisterParameter { .. })));
}

#[test]
fn register_failure_is_a_pe_error() {
    let log: Log = Log::default();
    let mut element = Element::new(0, &log);
    element.registers = 1;
    let mut job = job_with(element, &log);
    let values = vec![Parameter::Scalar32(1), Parameter::Scalar32(2), Parameter::Scalar32(3)];
    match job.set_arguments(values) {
        Err(Error::PEError { source }) => assert_eq!(source, "no register 1"),
        other => panic!("unexpected: {:?}", other),
    }
    assert_eq!(events(&log), vec![Event::SetArg32(0, 1), Event::SetArg32(1, 2)]);
}

#[test]
fn register_value_of_each_form() {
    assert!(matches!(Parameter::<Pool>::Scalar32(4).into_register_value(), Ok(Parameter::Scalar32(4))));
    assert!(matches!(Parameter::<Pool>::Scalar64(5).into_register_value(), Ok(Parameter::Scalar64(5))));
    assert!(matches!(
        Parameter::<Pool>::DeviceAddress(6).into_register_value(),
        Ok(Parameter::Scalar64(6))
    ));
    let log: Log = Log::default();
    let pool = Pool::new(&log, 8);
    assert!(matches!(
        unplaced(&pool, &[1], true, true, true).into_register_value(),
        Err(Parameter::UnplacedTransfer(_))
    ));
    assert!(matches!(
        Parameter::PlacedTransfer(placed(&pool, &[1], 0, true, true, true)).into_register_value(),
        Err(Parameter::PlacedTransfer(_))
    ));
}

#[test]
fn placing_keeps_every_field() {
    let log: Log = Log::default();
    let pool = Pool::new(&log, 8);
    let request = UnplacedTransfer {
        data: vec![1, 2, 3],
        from_device: true,
        to_device: false,
        memory: pool.clone(),
        free_after: true,
    };
    let t = request.place(77);
    assert_eq!(t.data, vec![1, 2, 3]);
    assert_eq!(t.device_address, 77);
    assert!(t.from_device && !t.to_device && t.free_after);
    assert!(Arc::ptr_eq(&t.memory, &pool));
}

#[test]
fn order_of_registers_follows_the_arguments() {
    let log: Log = Log::default();
    let pool = Pool::new(&log, 64);
    let mut job = job_on(0, &log);
    let args = vec![
        unplaced(&pool, &[1, 1], false, true, false),
        Parameter::Scalar32(10),
        unplaced(&pool, &[2, 2, 2], true, false, false),
        Parameter::DeviceAddress(50),
        unplaced(&pool, &[3], true, true, false),
        Parameter::Scalar64(11),
    ];
    job.start(args).unwrap();
    let bound: Vec<Event> = events(&log)
        .into_iter()
        .filter(|e| matches!(e, Event::SetArg32(..) | Event::SetArg64(..)))
        .collect();
    assert_eq!(
        bound,
        vec![
            Event::SetArg32(0, 10),
            Event::SetArg64(1, 2),
            Event::SetArg64(2, 50),
            Event::SetArg64(3, 5),
            Event::SetArg64(4, 11),
        ]
    );
}

#[test]
fn start_runs_the_stages_in_order() {
    let log: Log = Log::default();
    let pool = Pool::new(&log, 64);
    let mut job = job_on(0, &log);
    let args = vec![
        unplaced(&pool, &[1, 2], true, true, false),
        Parameter::Scalar32(9),
        unplaced(&pool, &[3], true, false, false),
    ];
    job.start(args).unwrap();
    assert_eq!(
        events(&log),
        vec![
            Event::Allocate(2),
            Event::Allocate(1),
            Event::CopyTo(vec![1, 2], 0),
            Event::AddCopyback(0),
            Event::CopyTo(vec![3], 2),
            Event::SetArg64(0, 0),
            Event::SetArg32(1, 9),
            Event::SetArg64(2, 2),
            Event::Start,
        ]
    );
    assert!(job.holds_pe());
}

#[test]
fn start_without_arguments_only_dispatches() {
    let log: Log = Log::default();
    let mut job = job_on(0, &log);
    job.start(Vec::new()).unwrap();
    assert_eq!(events(&log), vec![Event::Start]);
}

#[test]
fn start_failure_is_a_pe_error() {
    let log: Log = Log::default();
    let mut element = Element::new(0, &log);
    element.fails_to_start = true;
    let mut job = job_with(element, &log);
    match job.start(vec![Parameter::Scalar32(1)]) {
        Err(Error::PEError { source }) => assert_eq!(source, "element does not start"),
        other => panic!("unexpected: {:?}", other),
    }
    assert_eq!(events(&log), vec![Event::SetArg32(0, 1), Event::Start]);
    assert!(job.holds_pe());
}

#[test]
fn failed_start_frees_nothing() {
    let log: Log = Log::default();
    let pool = Pool::new(&log, 64);
    let mut job = job_on(0, &log);
    let args = vec![
        unplaced(&pool, &[1, 2], true, false, true),
        unplaced(&pool, &[3], true, false, true),
    ];
    pool.state.borrow_mut().dma_broken = true;
    let r = job.start(args);
    assert!(matches!(r, Err(Error::DMAError { .. })));
    assert_eq!(
        events(&log),
        vec![Event::Allocate(2), Event::Allocate(1), Event::CopyTo(vec![1, 2], 0)]
    );
    assert_eq!(pool.state.borrow().live, vec![(0, 2), (2, 1)]);
}

#[test]
fn round_trip_recovers_the_data_and_frees_the_memory() {
    let log: Log = Log::default();
    let pool = Pool::new(&log, 4);
    let mut job = job_on(1, &log);
    let data = [9u8, 8, 7, 6];
    job.start(vec![unplaced(&pool, &data, true, true, true)]).unwrap();
    assert!(matches!(pool.allocate(4), Err(AllocatorFault::Refused(_))));
    let recovered = job.release(true).unwrap();
    assert_eq!(recovered, Some(vec![data.to_vec()]));
    assert_eq!(pool.allocate(4).unwrap(), 0);
}

#[test]
fn release_reads_back_what_is_on_the_device() {
    let log: Log = Log::default();
    let pool = Pool::new(&log, 16);
    let mut job = job_on(1, &log);
    let args = vec![
        unplaced(&pool, &[0, 0, 0], false, true, false),
        unplaced(&pool, &[1, 1], true, true, true),
    ];
    job.start(args).unwrap();
    pool.state.borrow_mut().bytes[0..3].copy_from_slice(&[5, 6, 7]);
    let before = events(&log).len();
    let recovered = job.release(false).unwrap();
    assert_eq!(recovered, Some(vec![vec![5, 6, 7], vec![1, 1]]));
    assert_eq!(
        events(&log)[before..],
        [Event::Release, Event::CopyFrom(0, 3), Event::CopyFrom(3, 2), Event::Free(3)]
    );
    assert_eq!(pool.state.borrow().live, vec![(0, 3)]);
    assert!(job.holds_pe());
}

#[test]
fn release_gives_the_element_back_to_the_scheduler_it_was_made_with() {
    let log: Log = Log::default();
    let scheduler = Arc::new(Elements { log: log.clone(), closed: false });
    let mut job: TestJob = Job::new(Element::new(5, &log), &scheduler);
    assert_eq!(Arc::strong_count(&scheduler), 2);
    assert_eq!(job.release(true).unwrap(), None);
    assert_eq!(events(&log), vec![Event::Release, Event::ReturnPe(5)]);
    assert!(!job.holds_pe());
}

#[test]
fn second_release_does_nothing() {
    let log: Log = Log::default();
    let pool = Pool::new(&log, 16);
    let mut job = job_on(2, &log);
    job.start(vec![unplaced(&pool, &[1], true, true, true)]).unwrap();
    assert_eq!(job.release(true).unwrap(), Some(vec![vec![1]]));
    let after_first = events(&log);
    assert_eq!(job.release(true).unwrap(), None);
    assert_eq!(job.release(false).unwrap(), None);
    assert_eq!(events(&log), after_first);
    assert_eq!(after_first.iter().filter(|e| matches!(e, Event::ReturnPe(_))).count(), 1);
}

#[test]
fn release_that_keeps_the_element_can_be_repeated() {
    let log: Log = Log::default();
    let mut job = job_on(2, &log);
    assert_eq!(job.release(false).unwrap(), None);
    assert!(job.holds_pe());
    assert_eq!(job.release(true).unwrap(), None);
    assert!(!job.holds_pe());
    assert_eq!(events(&log), vec![Event::Release, Event::Release, Event::ReturnPe(2)]);
}

#[test]
fn element_that_does_not_idle_is_kept() {
    let log: Log = Log::default();
    let mut element = Element::new(0, &log);
    element.fails_to_idle = true;
    let mut job = job_with(element, &log);
    match job.release(true) {
        Err(Error::PEError { source }) => assert_eq!(source, "element does not become idle"),
        other => panic!("unexpected: {:?}", other),
    }
    assert!(job.holds_pe());
    assert_eq!(events(&log), vec![Event::Release]);
}

#[test]
fn scheduler_failure_is_a_scheduler_error() {
    let log: Log = Log::default();
    let pool = Pool::new(&log, 16);
    let scheduler = Arc::new(Elements { log: log.clone(), closed: true });
    let mut job: TestJob = Job::new(Element::new(4, &log), &scheduler);
    job.start(vec![unplaced(&pool, &[1], true, true, true)]).unwrap();
    let before = events(&log).len();
    match job.release(true) {
        Err(Error::SchedulerError { source }) => assert_eq!(source, "element 4 not taken back"),
        other => panic!("unexpected: {:?}", other),
    }
    assert_eq!(events(&log)[before..], [Event::Release, Event::ReturnPe(4)]);
    assert!(!job.holds_pe());
    assert_eq!(job.release(true).unwrap(), None);
    assert_eq!(events(&log).len(), before + 2);
}

#[test]
fn read_back_failure_is_a_dma_error() {
    let log: Log = Log::default();
    let pool = Pool::new(&log, 16);
    let mut job = job_on(0, &log);
    let args = vec![
        unplaced(&pool, &[1, 2], true, true, true),
        unplaced(&pool, &[3], true, true, true),
    ];
    job.start(args).unwrap();
    pool.state.borrow_mut().dma_broken = true;
    let before = events(&log).len();
    match job.release(true) {
        Err(Error::DMAError { source }) => assert_eq!(source, "read of 2 bytes failed"),
        other => panic!("unexpected: {:?}", other),
    }
    assert_eq!(events(&log)[before..], [Event::Release, Event::ReturnPe(0), Event::CopyFrom(0, 2)]);
}

#[test]
fn refused_free_is_an_allocator_error() {
    let log: Log = Log::default();
    let pool = Pool::new(&log, 16);
    let mut job = job_on(0, &log);
    let args = vec![Parameter::PlacedTransfer(placed(&pool, &[1, 2], 4, false, true, true))];
    job.start(args).unwrap();
    match job.release(true) {
        Err(Error::AllocatorError { source }) => assert_eq!(source, "nothing allocated at 4"),
        other => panic!("unexpected: {:?}", other),
    }
}

#[test]
fn empty_list_of_copybacks_is_not_none() {
    let log: Log = Log::default();
    let mut element = Element::new(0, &log);
    element.copybacks = Some(Vec::new());
    let mut job = job_with(element, &log);
    assert_eq!(job.release(true).unwrap(), Some(Vec::new()));
}

#[test]
fn scalar_and_outbound_transfer_on_element_three() {
    let log: Log = Log::default();
    let pool = Pool::new(&log, 64);
    let mut job = job_on(3, &log);
    let args = vec![Parameter::Scalar32(7), unplaced(&pool, &[1, 2, 3], true, false, true)];
    job.start(args).unwrap();
    let address = 0;
    assert_eq!(
        events(&log),
        vec![
            Event::Allocate(3),
            Event::CopyTo(vec![1, 2, 3], address),
            Event::SetArg32(0, 7),
            Event::SetArg64(1, address),
            Event::Start,
        ]
    );
    assert_eq!(pool.state.borrow().bytes[0..3], [1, 2, 3]);
    let recovered = job.release(true).unwrap();
    assert_eq!(recovered, None);
    assert_eq!(events(&log)[5..], [Event::Release, Event::ReturnPe(3)]);
    assert!(!job.holds_pe());
}

#[test]
fn poison_error_becomes_a_mutex_error() {
    let e: Error<Pool, Element, Elements> = Error::from(std::sync::PoisonError::new(5u8));
    assert!(matches!(e, Error::MutexError {}));
    let fault: AllocatorFault<String> = AllocatorFault::from(std::sync::PoisonError::new(()));
    assert!(matches!(fault, AllocatorFault::Poisoned));
}

#[test]
fn copybacks_are_recovered_in_their_order() {
    let log: Log = Log::default();
    let pool = Pool::new(&log, 16);
    pool.state.borrow_mut().bytes[0..6].copy_from_slice(&[1, 2, 3, 4, 5, 6]);
    pool.allocate(2).unwrap();
    let mut job = job_on(0, &log);
    let transfers = vec![
        placed(&pool, &[0, 0], 4, false, true, false),
        placed(&pool, &[0, 0], 0, false, true, true),
        placed(&pool, &[], 2, false, true, false),
    ];
    let before = events(&log).len();
    let recovered = job.handle_copybacks(transfers).unwrap();
    assert_eq!(recovered, vec![vec![5, 6], vec![1, 2], vec![]]);
    assert_eq!(
        events(&log)[before..],
        [Event::CopyFrom(4, 2), Event::CopyFrom(0, 2), Event::Free(0), Event::CopyFrom(2, 0)]
    );
    assert!(pool.state.borrow().live.is_empty());
    assert!(job.holds_pe());
}

#[test]
fn no_copybacks_ask_nothing() {
    let log: Log = Log::default();
    let mut job = job_on(0, &log);
    assert_eq!(job.handle_copybacks(Vec::new()).unwrap(), Vec::<Vec<u8>>::new());
    assert_eq!(events(&log), vec![]);
}

#[test]
fn failed_read_back_frees_nothing_more() {
    let log: Log = Log::default();
    let pool = Pool::new(&log, 16);
    pool.allocate(2).unwrap();
    pool.state.borrow_mut().dma_broken = true;
    let mut job = job_on(0, &log);
    let before = events(&log).len();
    let r = job.handle_copybacks(vec![placed(&pool, &[0, 0], 0, false, true, true)]);
    assert!(matches!(r, Err(Error::DMAError { .. })));
    assert_eq!(events(&log)[before..], [Event::CopyFrom(0, 2)]);
    assert_eq!(pool.state.borrow().live, vec![(0, 2)]);
}
