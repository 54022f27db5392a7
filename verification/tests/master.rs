use anyhow::Result;
use lowbulls::master::LowBullMaster;
use lowbulls::watch::LowBullWatcher;
use std::cell::RefCell;

#[derive(Debug, Hash, PartialEq, Eq, Clone, Copy)]
enum HandleKey {
    Empty,
    StartRender,
    StopRender,
}

#[derive(Debug, Hash, PartialEq, Eq)]
enum Response {
    Nothing,
}

#[derive(Debug, Hash, PartialEq, Eq, Clone, Copy)]
enum ResourceKey {
    GetTest,
    GetRender,
}

#[derive(Debug, Hash, PartialEq, Eq)]
enum Resource {
    Render(bool),
    Test(bool),
}

struct Master {
    render: bool,
    handle_watcher: LowBullWatcher<HandleKey>,
    resource_watcher: RefCell<LowBullWatcher<ResourceKey>>,
}

impl LowBullMaster<HandleKey, Response> for Master {
    fn handle(&mut self, key: HandleKey) -> Result<Response> {
        self.handle_watcher.watch(key);

        match key {
            HandleKey::StartRender => {
                self.render = true;
                Ok(Response::Nothing)
            }
            HandleKey::StopRender => {
                self.render = false;
                Ok(Response::Nothing)
            }
            HandleKey::Empty => Ok(Response::Nothing),
        }
    }
}

impl Master {
    fn get_resource(&self, key: ResourceKey) -> Result<Resource> {
        self.resource_watcher.borrow_mut().watch(key);

        match key {
            ResourceKey::GetTest => Ok(Resource::Test(true)),
            ResourceKey::GetRender => Ok(Resource::Render(self.render)),
        }
    }
}

#[test]
fn test_master() {
    let mut master = Master {
        render: false,
        handle_watcher: LowBullWatcher::new(1000),
        resource_watcher: RefCell::new(LowBullWatcher::new(1000)),
    };

    assert_eq!(
        master.get_resource(ResourceKey::GetRender).unwrap(),
        Resource::Render(false)
    );

    assert_eq!(
        master.handle(HandleKey::StartRender).unwrap(),
        Response::Nothing
    );

    assert_eq!(
        master.get_resource(ResourceKey::GetRender).unwrap(),
        Resource::Render(true)
    );

    assert_eq!(
        master.handle(HandleKey::StopRender).unwrap(),
        Response::Nothing
    );

    assert_eq!(
        master.get_resource(ResourceKey::GetRender).unwrap(),
        Resource::Render(false)
    );

    assert_eq!(
        master.get_resource(ResourceKey::GetTest).unwrap(),
        Resource::Test(true)
    );

    let responses = master
        .handle_many(vec![HandleKey::StartRender, HandleKey::StopRender])
        .unwrap();

    assert_eq!(responses[0], Response::Nothing);
    assert_eq!(responses[1], Response::Nothing);

    for _ in 0..1000 {
        master.handle(HandleKey::Empty).unwrap();
    }
}

/// A handler that counts its calls and fails on one chosen key.
struct Counter {
    fail_on: u32,
    handled: Vec<u32>,
}

impl LowBullMaster<u32, u32> for Counter {
    fn handle(&mut self, key: u32) -> Result<u32> {
        self.handled.push(key);
        if key == self.fail_on {
            Err(anyhow::Error::msg(format!("cannot handle {key}")))
        } else {
            Ok(key * 2)
        }
    }
}

#[test]
fn master_watchers_saw_every_key() {
    let mut master = Master {
        render: false,
        handle_watcher: LowBullWatcher::new(1000),
        resource_watcher: RefCell::new(LowBullWatcher::new(1000)),
    };
    master.get_resource(ResourceKey::GetRender).unwrap();
    master.get_resource(ResourceKey::GetTest).unwrap();
    let responses = master
        .handle_many(vec![HandleKey::StartRender, HandleKey::Empty])
        .unwrap();
    assert_eq!(responses, vec![Response::Nothing, Response::Nothing]);
    assert!(master.render);

    let handled: Vec<HandleKey> = master
        .handle_watcher
        .history()
        .iter()
        .map(|entry| *entry.key())
        .collect();
    assert_eq!(handled, vec![HandleKey::StartRender, HandleKey::Empty]);
    let asked: Vec<ResourceKey> = master
        .resource_watcher
        .borrow()
        .history()
        .iter()
        .map(|entry| *entry.key())
        .collect();
    assert_eq!(asked, vec![ResourceKey::GetRender, ResourceKey::GetTest]);
}

#[test]
fn handle_many_answers_in_key_order() {
    let mut counter = Counter {
        fail_on: 99,
        handled: Vec::new(),
    };
    let answers = counter.handle_many(vec![1, 2, 3]).unwrap();
    assert_eq!(answers, vec![2, 4, 6]);
    assert_eq!(counter.handled, vec![1, 2, 3]);
}

#[test]
fn handle_many_of_nothing_is_empty() {
    let mut counter = Counter {
        fail_on: 99,
        handled: Vec::new(),
    };
    let answers = counter.handle_many(Vec::new()).unwrap();
    assert!(answers.is_empty());
    assert!(counter.handled.is_empty());
}

#[test]
fn handle_many_stops_at_the_first_failure() {
    let mut counter = Counter {
        fail_on: 2,
        handled: Vec::new(),
    };
    let error = counter.handle_many(vec![1, 2, 3, 2]).unwrap_err();
    assert_eq!(error.to_string(), "cannot handle 2");
    // The failing key was handled, the keys after it were not.
    assert_eq!(counter.handled, vec![1, 2]);
}

#[test]
fn handle_many_fails_on_a_failing_first_key() {
    let mut counter = Counter {
        fail_on: 7,
        handled: Vec::new(),
    };
    let error = counter.handle_many(vec![7, 1]).unwrap_err();
    assert_eq!(error.to_string(), "cannot handle 7");
    assert_eq!(counter.handled, vec![7]);
}
