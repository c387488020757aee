//! The channel behind an asynchronous lock, shared by several holders and
//! driven with real asynchronous writes into a sink that takes its time.

use std::cell::{Cell, RefCell};
use std::future::Future;
use std::io;
use std::pin::Pin;
use std::rc::Rc;
use std::sync::Arc;
use std::task::{Context, Poll};

use async_lock::Mutex;
use futures_lite::future::{block_on, poll_fn, zip};
use futures_lite::io::{AsyncWrite, AsyncWriteExt};

use child_writer::channel::{reply, ChildWriterInner};

/// What the far end has seen.
#[derive(Clone, Default)]
struct FarEnd {
    received: Rc<RefCell<Vec<u8>>>,
    flushes: Rc<Cell<usize>>,
    dropped: Rc<Cell<usize>>,
}

/// A sink that takes a few bytes at a time and makes the writer wait in
/// between, so that other tasks get to run in the middle of a write.
struct Trickle {
    far_end: FarEnd,
    chunk: usize,
    rested: bool,
    write_breaks: bool,
    flush_breaks: bool,
}

impl Trickle {
    fn facing(far_end: &FarEnd, chunk: usize) -> Trickle {
        Trickle {
            far_end: far_end.clone(),
            chunk,
            rested: false,
            write_breaks: false,
            flush_breaks: false,
        }
    }
}

impl Drop for Trickle {
    fn drop(&mut self) {
        self.far_end.dropped.set(self.far_end.dropped.get() + 1);
    }
}

impl AsyncWrite for Trickle {
    fn poll_write(
        mut self: Pin<&mut Self>,
        cx: &mut Context<'_>,
        buf: &[u8],
    ) -> Poll<io::Result<usize>> {
        if self.write_breaks {
            return Poll::Ready(Err(io::Error::new(io::ErrorKind::BrokenPipe, "broken pipe")));
        }
        if !self.rested {
            self.rested = true;
            cx.waker().wake_by_ref();
            return Poll::Pending;
        }
        self.rested = false;
        let taken = buf.len().min(self.chunk);
        self.far_end.received.borrow_mut().extend_from_slice(&buf[..taken]);
        Poll::Ready(Ok(taken))
    }

    fn poll_flush(self: Pin<&mut Self>, _cx: &mut Context<'_>) -> Poll<io::Result<()>> {
        self.far_end.flushes.set(self.far_end.flushes.get() + 1);
        if self.flush_breaks {
            return Poll::Ready(Err(io::Error::new(io::ErrorKind::Other, "flush failed")));
        }
        Poll::Ready(Ok(()))
    }

    fn poll_close(self: Pin<&mut Self>, _cx: &mut Context<'_>) -> Poll<io::Result<()>> {
        Poll::Ready(Ok(()))
    }
}

type Handle = Arc<Mutex<ChildWriterInner<Trickle>>>;

fn handle_over(sink: Option<Trickle>) -> Handle {
    Arc::new(Mutex::new(ChildWriterInner::from(sink)))
}

async fn write_through(handle: &Handle, data: Vec<u8>) -> io::Result<()> {
    let mut inner = handle.lock().await;
    let performed = match inner.write(data) {
        Some(delivery) => Some(delivery.sink.write_all(&delivery.bytes).await),
        None => None,
    };
    reply(performed)
}

async fn close_through(handle: &Handle) -> io::Result<()> {
    let mut inner = handle.lock().await;
    let performed = match inner.close() {
        Some(mut sink) => Some(sink.flush().await),
        None => None,
    };
    reply(performed)
}

type Task<'a> = Pin<Box<dyn Future<Output = io::Result<()>> + 'a>>;

/// Runs all tasks side by side on this thread until each has finished.
async fn side_by_side(mut tasks: Vec<Task<'_>>) -> Vec<io::Result<()>> {
    let mut results: Vec<Option<io::Result<()>>> = tasks.iter().map(|_| None).collect();
    poll_fn(|cx| {
        let mut waiting = false;
        for (task, result) in tasks.iter_mut().zip(results.iter_mut()) {
            if result.is_none() {
                match task.as_mut().poll(cx) {
                    Poll::Ready(done) => *result = Some(done),
                    Poll::Pending => waiting = true,
                }
            }
        }
        if waiting {
            Poll::Pending
        } else {
            Poll::Ready(())
        }
    })
    .await;
    results.into_iter().map(|r| r.expect("every task has finished")).collect()
}

#[test]
fn write_then_close_then_write() {
    let far_end = FarEnd::default();
    let handle = handle_over(Some(Trickle::facing(&far_end, 2)));
    block_on(async {
        assert!(write_through(&handle, b"hello".to_vec()).await.is_ok());
        assert!(close_through(&handle).await.is_ok());
        assert!(write_through(&handle, b"world".to_vec()).await.is_ok());
    });
    assert_eq!(*far_end.received.borrow(), b"hello".to_vec());
    assert_eq!(far_end.flushes.get(), 1);
    assert_eq!(far_end.dropped.get(), 1);
}

#[test]
fn absent_channel_takes_every_call() {
    let handle = handle_over(None);
    block_on(async {
        assert!(write_through(&handle, b"x".to_vec()).await.is_ok());
        assert!(close_through(&handle).await.is_ok());
        assert!(!handle.lock().await.is_open());
    });
}

#[test]
fn large_write_against_close_is_all_or_nothing() {
    let megabyte: Vec<u8> = (0..1_048_576usize).map(|i| (i % 251) as u8).collect();

    for close_first in [false, true] {
        let far_end = FarEnd::default();
        let a = handle_over(Some(Trickle::facing(&far_end, 4096)));
        let b = a.clone();
        let (wrote, closed) = block_on(async {
            if close_first {
                let (closed, wrote) = zip(close_through(&a), write_through(&b, megabyte.clone())).await;
                (wrote, closed)
            } else {
                zip(write_through(&b, megabyte.clone()), close_through(&a)).await
            }
        });
        assert!(wrote.is_ok());
        assert!(closed.is_ok());
        let received = far_end.received.borrow();
        assert!(received.is_empty() || *received == megabyte);
        assert_eq!(received.is_empty(), close_first);
        assert_eq!(far_end.flushes.get(), 1);
        assert_eq!(far_end.dropped.get(), 1);
        assert!(!block_on(a.lock()).is_open());
    }
}

#[test]
fn writes_arrive_in_the_order_issued() {
    let far_end = FarEnd::default();
    let handle = handle_over(Some(Trickle::facing(&far_end, 3)));
    block_on(async {
        for chunk in [&b"first,"[..], &b""[..], &b"second,"[..], &b"third"[..]] {
            assert!(write_through(&handle, chunk.to_vec()).await.is_ok());
        }
        assert!(close_through(&handle).await.is_ok());
    });
    assert_eq!(*far_end.received.borrow(), b"first,second,third".to_vec());
}

#[test]
fn close_twice_never_fails() {
    let far_end = FarEnd::default();
    let handle = handle_over(Some(Trickle::facing(&far_end, 8)));
    let other = handle.clone();
    block_on(async {
        assert!(close_through(&handle).await.is_ok());
        assert!(close_through(&other).await.is_ok());
        assert!(close_through(&handle).await.is_ok());
    });
    assert_eq!(far_end.flushes.get(), 1);
    assert_eq!(far_end.dropped.get(), 1);
}

#[test]
fn concurrent_writers_do_not_interleave() {
    let writers: usize = 8;
    let marker_len: usize = 1000;
    let far_end = FarEnd::default();
    let handle = handle_over(Some(Trickle::facing(&far_end, 7)));
    let clones: Vec<Handle> = (0..writers).map(|_| handle.clone()).collect();

    let results = block_on(async {
        let mut tasks: Vec<Task<'_>> = Vec::new();
        for (i, clone) in clones.iter().enumerate() {
            let marker = vec![b'a' + i as u8; marker_len];
            tasks.push(Box::pin(write_through(clone, marker)));
        }
        side_by_side(tasks).await
    });
    assert!(results.iter().all(|r| r.is_ok()));

    let received = far_end.received.borrow();
    assert_eq!(received.len(), writers * marker_len);
    let mut seen: Vec<u8> = Vec::new();
    for block in received.chunks(marker_len) {
        assert!(block.iter().all(|b| *b == block[0]));
        assert!(!seen.contains(&block[0]));
        seen.push(block[0]);
    }
    assert_eq!(seen.len(), writers);
}

#[test]
fn concurrent_close_lets_earlier_writes_finish_whole() {
    let far_end = FarEnd::default();
    let handle = handle_over(Some(Trickle::facing(&far_end, 5)));
    let results = block_on(async {
        let tasks: Vec<Task<'_>> = vec![
            Box::pin(write_through(&handle, vec![b'x'; 300])),
            Box::pin(close_through(&handle)),
            Box::pin(write_through(&handle, vec![b'y'; 300])),
        ];
        side_by_side(tasks).await
    });
    assert!(results.iter().all(|r| r.is_ok()));
    assert_eq!(*far_end.received.borrow(), vec![b'x'; 300]);
}

#[test]
fn failed_write_is_reported_and_leaves_the_channel_open() {
    let far_end = FarEnd::default();
    let mut sink = Trickle::facing(&far_end, 4);
    sink.write_breaks = true;
    let handle = handle_over(Some(sink));
    block_on(async {
        let failure = write_through(&handle, b"lost".to_vec())
            .await
            .expect_err("the sink rejects the bytes");
        assert_eq!(failure.kind(), io::ErrorKind::BrokenPipe);
        assert!(handle.lock().await.is_open());
        assert!(close_through(&handle).await.is_ok());
        assert!(!handle.lock().await.is_open());
    });
    assert!(far_end.received.borrow().is_empty());
    assert_eq!(far_end.dropped.get(), 1);
}

#[test]
fn failed_flush_is_reported_and_the_channel_is_closed_all_the_same() {
    let far_end = FarEnd::default();
    let mut sink = Trickle::facing(&far_end, 4);
    sink.flush_breaks = true;
    let handle = handle_over(Some(sink));
    block_on(async {
        assert!(write_through(&handle, b"kept".to_vec()).await.is_ok());
        let failure = close_through(&handle).await.expect_err("the flush fails");
        assert_eq!(format!("{}", failure), "flush failed");
        assert!(!handle.lock().await.is_open());
        assert!(close_through(&handle).await.is_ok());
        assert!(write_through(&handle, b"late".to_vec()).await.is_ok());
    });
    assert_eq!(*far_end.received.borrow(), b"kept".to_vec());
    assert_eq!(far_end.flushes.get(), 1);
    assert_eq!(far_end.dropped.get(), 1);
}

#[test]
fn dropping_the_last_clone_lets_go_of_an_open_sink() {
    let far_end = FarEnd::default();
    let handle = handle_over(Some(Trickle::facing(&far_end, 4)));
    let other = handle.clone();
    drop(handle);
    assert_eq!(far_end.dropped.get(), 0);
    drop(other);
    assert_eq!(far_end.dropped.get(), 1);
}
