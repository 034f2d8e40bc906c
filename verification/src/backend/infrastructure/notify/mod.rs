pub mod ntfy_notifier;
